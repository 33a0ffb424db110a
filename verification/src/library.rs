use vstd::prelude::*;

use crate::blueprint::{same_content, Blueprint};
use crate::material::Material;
use crate::text::{eq_ignoring_ascii_case, same_ignoring_ascii_case};

verus! {

/// One of the blueprint's tags matches `tag`, ignoring ASCII case.
pub open spec fn has_tag(bp: Blueprint, tag: Seq<char>) -> bool {
    exists|t: int| 0 <= t < bp.tags@.len() && eq_ignoring_ascii_case(#[trigger] bp.tags@[t]@, tag)
}

/// Some block of the blueprint is made of `mat`.
pub open spec fn uses_material(bp: Blueprint, mat: Material) -> bool {
    exists|i: int| 0 <= i < bp.blocks@.len() && (#[trigger] bp.blocks@[i]).material == mat
}

/// `found` lists, each once and in some order, exactly the blueprints of `lib` that
/// satisfy `pred`.
pub open spec fn lists_exactly(
    found: Seq<&Blueprint>,
    lib: Map<Seq<char>, Blueprint>,
    pred: spec_fn(Blueprint) -> bool,
) -> bool {
    &&& forall|i: int|
        0 <= i < found.len() ==> lib.dom().contains(found[i].name@) && lib[found[i].name@]
            == *found[i] && pred(*found[i])
    &&& forall|k: Seq<char>|
        lib.dom().contains(k) && #[trigger] pred(lib[k]) ==> exists|i: int|
            0 <= i < found.len() && (#[trigger] found[i]).name@ == k
    &&& forall|i: int, j: int|
        0 <= i < found.len() && 0 <= j < found.len() && i != j ==> found[i].name@
            != found[j].name@
}

/// A library of named blueprints, keyed by name.
#[derive(Debug)]
pub struct BlueprintLib {
    blueprints: Vec<Blueprint>,
}

/// No two blueprints share a name.
pub open spec fn names_distinct(s: Seq<Blueprint>) -> bool {
    forall|i: int, j: int|
        0 <= i < s.len() && 0 <= j < s.len() && i != j ==> s[i].name@ != s[j].name@
}

/// The blueprints keyed by name.
pub open spec fn keyed_by_name(s: Seq<Blueprint>) -> Map<Seq<char>, Blueprint> {
    Map::new(
        |k: Seq<char>| exists|i: int| 0 <= i < s.len() && (#[trigger] s[i]).name@ == k,
        |k: Seq<char>| s[choose|i: int| 0 <= i < s.len() && (#[trigger] s[i]).name@ == k],
    )
}

/// With distinct names, the blueprint stored at `i` is the one keyed by its name.
proof fn lemma_keyed_at(s: Seq<Blueprint>, i: int)
    requires
        names_distinct(s),
        0 <= i < s.len(),
    ensures
        keyed_by_name(s).dom().contains(s[i].name@),
        keyed_by_name(s)[s[i].name@] == s[i],
{
    let k = s[i].name@;
    assert(keyed_by_name(s).dom().contains(k));
    let j = choose|j: int| 0 <= j < s.len() && (#[trigger] s[j]).name@ == k;
    assert(j == i);
}

/// Every key names some stored blueprint.
proof fn lemma_keyed_dom(s: Seq<Blueprint>, k: Seq<char>)
    requires
        keyed_by_name(s).dom().contains(k),
    ensures
        exists|i: int| 0 <= i < s.len() && (#[trigger] s[i]).name@ == k,
{
}

proof fn lemma_update_view(old_s: Seq<Blueprint>, s: Seq<Blueprint>, i: int, bp: Blueprint)
    requires
        names_distinct(old_s),
        names_distinct(s),
        0 <= i < old_s.len(),
        s == old_s.update(i, bp),
        old_s[i].name@ == bp.name@,
    ensures
        keyed_by_name(s) == keyed_by_name(old_s).insert(bp.name@, bp),
{
    let m = keyed_by_name(old_s).insert(bp.name@, bp);
    assert forall|k: Seq<char>| #[trigger] keyed_by_name(s).dom().contains(k) <==> m.dom().contains(
        k,
    ) by {
        if keyed_by_name(s).dom().contains(k) {
            let j = choose|j: int| 0 <= j < s.len() && (#[trigger] s[j]).name@ == k;
            if j != i {
                assert(old_s[j].name@ == k);
            }
        }
        if m.dom().contains(k) && k != bp.name@ {
            let j = choose|j: int| 0 <= j < old_s.len() && (#[trigger] old_s[j]).name@ == k;
            assert(s[j].name@ == k);
        }
        if k == bp.name@ {
            assert(s[i].name@ == k);
        }
    }
    assert forall|k: Seq<char>| #[trigger] keyed_by_name(s).dom().contains(k) implies keyed_by_name(
        s,
    )[k] == m[k] by {
        let j = choose|j: int| 0 <= j < s.len() && (#[trigger] s[j]).name@ == k;
        lemma_keyed_at(s, j);
        if j != i {
            assert(old_s[j] == s[j]);
            lemma_keyed_at(old_s, j);
        }
    }
    assert(keyed_by_name(s) =~= m);
}

proof fn lemma_push_view(old_s: Seq<Blueprint>, s: Seq<Blueprint>, bp: Blueprint)
    requires
        names_distinct(old_s),
        names_distinct(s),
        s == old_s.push(bp),
    ensures
        keyed_by_name(s) == keyed_by_name(old_s).insert(bp.name@, bp),
{
    let m = keyed_by_name(old_s).insert(bp.name@, bp);
    let last = old_s.len() as int;
    assert forall|k: Seq<char>| #[trigger] keyed_by_name(s).dom().contains(k) <==> m.dom().contains(
        k,
    ) by {
        if keyed_by_name(s).dom().contains(k) {
            let j = choose|j: int| 0 <= j < s.len() && (#[trigger] s[j]).name@ == k;
            if j != last {
                assert(old_s[j].name@ == k);
            }
        }
        if m.dom().contains(k) && k != bp.name@ {
            let j = choose|j: int| 0 <= j < old_s.len() && (#[trigger] old_s[j]).name@ == k;
            assert(s[j].name@ == k);
        }
        if k == bp.name@ {
            assert(s[last].name@ == k);
        }
    }
    assert forall|k: Seq<char>| #[trigger] keyed_by_name(s).dom().contains(k) implies keyed_by_name(
        s,
    )[k] == m[k] by {
        let j = choose|j: int| 0 <= j < s.len() && (#[trigger] s[j]).name@ == k;
        lemma_keyed_at(s, j);
        assert(s[last] == bp);
        if j != last {
            assert(s[last].name@ != s[j].name@);
            assert(old_s[j] == s[j]);
            lemma_keyed_at(old_s, j);
        }
    }
    assert(keyed_by_name(s) =~= m);
}

/// The index in `list` of the blueprint named `name`, if any.
fn find_named(list: &Vec<Blueprint>, name: &String) -> (r: Option<usize>)
    ensures
        r matches Some(i) ==> i < list@.len() && list@[i as int].name@ == name@,
        r is None ==> forall|i: int|
            0 <= i < list@.len() ==> (#[trigger] list@[i]).name@ != name@,
{
    let n = list.len();
    let mut i: usize = 0;
    while i < n
        invariant
            n == list@.len(),
            i <= n,
            forall|j: int| 0 <= j < i ==> (#[trigger] list@[j]).name@ != name@,
        decreases n - i,
    {
        if list[i].name == *name {
            return Some(i);
        }
        i = i + 1;
    }
    None
}

/// Whether one of the blueprint's tags matches `tag`, ignoring ASCII case.
fn tagged(bp: &Blueprint, tag: &str) -> (r: bool)
    ensures
        r == has_tag(*bp, tag@),
{
    let n = bp.tags.len();
    let mut t: usize = 0;
    while t < n
        invariant
            n == bp.tags@.len(),
            t <= n,
            forall|u: int| 0 <= u < t ==> !eq_ignoring_ascii_case(#[trigger] bp.tags@[u]@, tag@),
        decreases n - t,
    {
        if same_ignoring_ascii_case(bp.tags[t].as_str(), tag) {
            assert(eq_ignoring_ascii_case(bp.tags@[t as int]@, tag@));
            return true;
        }
        t = t + 1;
    }
    false
}

/// Whether some block of the blueprint is made of `mat`.
fn made_with(bp: &Blueprint, mat: Material) -> (r: bool)
    ensures
        r == uses_material(*bp, mat),
{
    let n = bp.blocks.len();
    let mut i: usize = 0;
    while i < n
        invariant
            n == bp.blocks@.len(),
            i <= n,
            forall|j: int| 0 <= j < i ==> (#[trigger] bp.blocks@[j]).material != mat,
        decreases n - i,
    {
        if bp.blocks[i].material == mat {
            assert(bp.blocks@[i as int].material == mat);
            return true;
        }
        i = i + 1;
    }
    false
}

/// The blueprints of `list` whose flag in `keep` is set, in list order.
fn select<'a>(
    list: &'a Vec<Blueprint>,
    keep: &Vec<bool>,
    Ghost(pred): Ghost<spec_fn(Blueprint) -> bool>,
) -> (r: Vec<&'a Blueprint>)
    requires
        names_distinct(list@),
        keep@.len() == list@.len(),
        forall|i: int| 0 <= i < list@.len() ==> keep@[i] == pred(#[trigger] list@[i]),
    ensures
        lists_exactly(r@, keyed_by_name(list@), pred),
{
    let n = list.len();
    let mut out: Vec<&'a Blueprint> = Vec::new();
    let ghost mut idx: Seq<int> = Seq::empty();
    let mut i: usize = 0;
    while i < n
        invariant
            n == list@.len(),
            i <= n,
            names_distinct(list@),
            keep@.len() == list@.len(),
            forall|k: int| 0 <= k < list@.len() ==> keep@[k] == pred(#[trigger] list@[k]),
            out@.len() == idx.len(),
            forall|j: int|
                0 <= j < out@.len() ==> 0 <= #[trigger] idx[j] < i && *out@[j] == list@[idx[j]]
                    && pred(list@[idx[j]]),
            forall|j1: int, j2: int| 0 <= j1 < j2 < idx.len() ==> idx[j1] < idx[j2],
            forall|k: int|
                0 <= k < i && #[trigger] pred(list@[k]) ==> exists|j: int|
                    0 <= j < idx.len() && idx[j] == k,
        decreases n - i,
    {
        if keep[i] {
            out.push(&list[i]);
            proof {
                let old_idx = idx;
                idx = idx.push(i as int);
                assert forall|k: int| 0 <= k < i + 1 && #[trigger] pred(list@[k]) implies exists|j: int|
                    0 <= j < idx.len() && idx[j] == k by {
                    if k < i {
                        let j = choose|j: int| 0 <= j < old_idx.len() && old_idx[j] == k;
                        assert(idx[j] == k);
                    } else {
                        assert(idx[idx.len() - 1] == k);
                    }
                }
            }
        }
        i = i + 1;
    }
    proof {
        let m = keyed_by_name(list@);
        assert forall|j: int| 0 <= j < out@.len() implies m.dom().contains(out@[j].name@)
            && m[out@[j].name@] == *out@[j] && pred(*out@[j]) by {
            lemma_keyed_at(list@, idx[j]);
        }
        assert forall|k: Seq<char>| m.dom().contains(k) && #[trigger] pred(m[k]) implies exists|j: int|
            0 <= j < out@.len() && (#[trigger] out@[j]).name@ == k by {
            let i0 = choose|i0: int| 0 <= i0 < list@.len() && (#[trigger] list@[i0]).name@ == k;
            lemma_keyed_at(list@, i0);
            assert(pred(list@[i0]));
            let j = choose|j: int| 0 <= j < idx.len() && idx[j] == i0;
            assert(out@[j].name@ == k);
        }
        assert forall|a: int, b: int|
            0 <= a < out@.len() && 0 <= b < out@.len() && a != b implies out@[a].name@
            != out@[b].name@ by {
            assert(idx[a] != idx[b]);
        }
    }
    out
}

impl View for BlueprintLib {
    type V = Map<Seq<char>, Blueprint>;

    closed spec fn view(&self) -> Map<Seq<char>, Blueprint> {
        keyed_by_name(self.blueprints@)
    }
}

impl Clone for BlueprintLib {
    /// A library holding a copy of each stored blueprint under the same name.
    fn clone(&self) -> (r: Self)
        ensures
            r@.dom() == self@.dom(),
            forall|k: Seq<char>| #[trigger] r@.dom().contains(k) ==> same_content(self@[k], r@[k]),
    {
        proof {
            use_type_invariant(self);
        }
        let n = self.blueprints.len();
        let mut out: Vec<Blueprint> = Vec::new();
        let mut i: usize = 0;
        while i < n
            invariant
                n == self.blueprints@.len(),
                i <= n,
                out@.len() == i,
                forall|j: int| 0 <= j < i ==> same_content(self.blueprints@[j], #[trigger] out@[j]),
            decreases n - i,
        {
            out.push(self.blueprints[i].clone());
            i = i + 1;
        }
        let ghost s = self.blueprints@;
        let ghost c = out@;
        proof {
            assert(names_distinct(c)) by {
                assert forall|a: int, b: int|
                    0 <= a < c.len() && 0 <= b < c.len() && a != b implies c[a].name@ != c[b].name@ by {
                    assert(same_content(s[a], c[a]) && same_content(s[b], c[b]));
                }
            }
            assert forall|k: Seq<char>| #[trigger] keyed_by_name(c).dom().contains(k) <==> keyed_by_name(
                s,
            ).dom().contains(k) by {
                if keyed_by_name(c).dom().contains(k) {
                    let j = choose|j: int| 0 <= j < c.len() && (#[trigger] c[j]).name@ == k;
                    assert(same_content(s[j], c[j]));
                    assert(s[j].name@ == k);
                }
                if keyed_by_name(s).dom().contains(k) {
                    let j = choose|j: int| 0 <= j < s.len() && (#[trigger] s[j]).name@ == k;
                    assert(same_content(s[j], c[j]));
                    assert(c[j].name@ == k);
                }
            }
            assert(keyed_by_name(c).dom() =~= keyed_by_name(s).dom());
            assert forall|k: Seq<char>| #[trigger] keyed_by_name(c).dom().contains(k) implies same_content(
                keyed_by_name(s)[k],
                keyed_by_name(c)[k],
            ) by {
                let j = choose|j: int| 0 <= j < c.len() && (#[trigger] c[j]).name@ == k;
                assert(same_content(s[j], c[j]));
                lemma_keyed_at(c, j);
                lemma_keyed_at(s, j);
            }
        }
        BlueprintLib { blueprints: out }
    }
}

impl Default for BlueprintLib {
    fn default() -> (lib: Self)
        ensures
            lib@ == Map::<Seq<char>, Blueprint>::empty(),
    {
        BlueprintLib::new()
    }
}

impl BlueprintLib {
    #[verifier::type_invariant]
    spec fn inv(&self) -> bool {
        names_distinct(self.blueprints@)
    }

    /// An empty library.
    pub fn new() -> (lib: Self)
        ensures
            lib@ == Map::<Seq<char>, Blueprint>::empty(),
    {
        let lib = BlueprintLib { blueprints: Vec::new() };
        assert(lib@ =~= Map::<Seq<char>, Blueprint>::empty());
        lib
    }

    /// Stores `bp` under its name, replacing a blueprint of the same name.
    pub fn save(&mut self, bp: Blueprint)
        ensures
            final(self)@ == old(self)@.insert(bp.name@, bp),
    {
        proof {
            use_type_invariant(&*self);
        }
        let ghost old_s = self.blueprints@;
        let mut list = Vec::new();
        std::mem::swap(&mut list, &mut self.blueprints);
        let found = find_named(&list, &bp.name);
        let ghost key = bp.name@;
        match found {
            Some(i) => {
                list.set(i, bp);
                proof {
                    let s = list@;
                    assert(names_distinct(s)) by {
                        assert forall|a: int, b: int|
                            0 <= a < s.len() && 0 <= b < s.len() && a != b implies s[a].name@
                            != s[b].name@ by {
                            if a != i && b != i {
                                assert(old_s[a] == s[a] && old_s[b] == s[b]);
                            } else if a == i {
                                assert(old_s[b] == s[b]);
                                assert(old_s[i as int].name@ == key);
                            } else {
                                assert(old_s[a] == s[a]);
                                assert(old_s[i as int].name@ == key);
                            }
                        }
                    }
                    lemma_update_view(old_s, s, i as int, bp);
                }
            },
            None => {
                list.push(bp);
                proof {
                    let s = list@;
                    assert(names_distinct(s)) by {
                        assert forall|a: int, b: int|
                            0 <= a < s.len() && 0 <= b < s.len() && a != b implies s[a].name@
                            != s[b].name@ by {
                            if a < old_s.len() {
                                assert(old_s[a] == s[a]);
                            }
                            if b < old_s.len() {
                                assert(old_s[b] == s[b]);
                            }
                        }
                    }
                    lemma_push_view(old_s, s, bp);
                }
            },
        }
        self.blueprints = list;
    }



    /// The blueprint stored under `name`, if any.
    pub fn load(&self, name: &str) -> (r: Option<&Blueprint>)
        ensures
            r is Some <==> self@.dom().contains(name@),
            r matches Some(b) ==> *b == self@[name@],
    {
        proof {
            use_type_invariant(self);
        }
        let key = name.to_owned();
        match find_named(&self.blueprints, &key) {
            Some(i) => {
                proof {
                    lemma_keyed_at(self.blueprints@, i as int);
                }
                Some(&self.blueprints[i])
            },
            None => {
                proof {
                    if self@.dom().contains(name@) {
                        lemma_keyed_dom(self.blueprints@, name@);
                    }
                }
                None
            },
        }
    }

    /// The stored blueprints with a tag that matches `tag`, ignoring ASCII case.
    pub fn search_by_tag(&self, tag: &str) -> (r: Vec<&Blueprint>)
        ensures
            lists_exactly(r@, self@, |b: Blueprint| has_tag(b, tag@)),
    {
        proof {
            use_type_invariant(self);
        }
        let ghost pred = |b: Blueprint| has_tag(b, tag@);
        let n = self.blueprints.len();
        let mut keep: Vec<bool> = Vec::new();
        let mut i: usize = 0;
        while i < n
            invariant
                n == self.blueprints@.len(),
                i <= n,
                keep@.len() == i,
                forall|k: int| 0 <= k < i ==> keep@[k] == has_tag(#[trigger] self.blueprints@[k], tag@),
            decreases n - i,
        {
            keep.push(tagged(&self.blueprints[i], tag));
            i = i + 1;
        }
        select(&self.blueprints, &keep, Ghost(pred))
    }

    /// The stored blueprints with at least one block of `mat`.
    pub fn search_by_material(&self, mat: Material) -> (r: Vec<&Blueprint>)
        ensures
            lists_exactly(r@, self@, |b: Blueprint| uses_material(b, mat)),
    {
        proof {
            use_type_invariant(self);
        }
        let ghost pred = |b: Blueprint| uses_material(b, mat);
        let n = self.blueprints.len();
        let mut keep: Vec<bool> = Vec::new();
        let mut i: usize = 0;
        while i < n
            invariant
                n == self.blueprints@.len(),
                i <= n,
                keep@.len() == i,
                forall|k: int| 0 <= k < i ==> keep@[k] == uses_material(#[trigger] self.blueprints@[k], mat),
            decreases n - i,
        {
            keep.push(made_with(&self.blueprints[i], mat));
            i = i + 1;
        }
        select(&self.blueprints, &keep, Ghost(pred))
    }

    /// A copy of the blueprint stored under `name`, renamed to `new_name`, credited to
    /// `new_author`, and reset to version 1.
    pub fn fork(&self, name: &str, new_name: &str, new_author: &str) -> (r: Option<Blueprint>)
        ensures
            r is Some <==> self@.dom().contains(name@),
            r matches Some(f) ==> {
                &&& f.name@ == new_name@
                &&& f.author@ == new_author@
                &&& f.version == 1
                &&& f.blocks@ == self@[name@].blocks@
                &&& f.tags@ == self@[name@].tags@
            },
    {
        match self.load(name) {
            Some(bp) => {
                let blocks = bp.blocks.clone();
                let tags = bp.tags.clone();
                proof {
                    assert(blocks@ =~= bp.blocks@);
                    assert(tags@ =~= bp.tags@);
                }
                Some(Blueprint {
                    name: new_name.to_owned(),
                    blocks,
                    author: new_author.to_owned(),
                    version: 1,
                    tags,
                })
            },
            None => None,
        }
    }

    /// Every stored blueprint, each once.
    pub fn blueprints(&self) -> (r: Vec<&Blueprint>)
        ensures
            lists_exactly(r@, self@, |b: Blueprint| true),
    {
        proof {
            use_type_invariant(self);
        }
        let ghost pred = |b: Blueprint| true;
        let n = self.blueprints.len();
        let mut keep: Vec<bool> = Vec::new();
        let mut i: usize = 0;
        while i < n
            invariant
                n == self.blueprints@.len(),
                i <= n,
                keep@.len() == i,
                forall|k: int| 0 <= k < i ==> #[trigger] keep@[k],
            decreases n - i,
        {
            keep.push(true);
            i = i + 1;
        }
        select(&self.blueprints, &keep, Ghost(pred))
    }
}

} // verus!
