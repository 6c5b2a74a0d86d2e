use vstd::prelude::*;
use crate::text::{is_infix, str_contains};

verus! {

/// A classification module: a code and its display text.
#[derive(Debug, Clone)]
pub struct Module {
    pub value: String,
    pub text: String,
}

impl View for Module {
    type V = (Seq<char>, Seq<char>);

    open spec fn view(&self) -> (Seq<char>, Seq<char>) {
        (self.value@, self.text@)
    }
}

/// Two modules are the same module when their codes agree.
impl PartialEq for Module {
    fn eq(&self, other: &Module) -> (r: bool) {
        self.value == other.value
    }
}

impl vstd::std_specs::cmp::PartialEqSpecImpl for Module {
    open spec fn obeys_eq_spec() -> bool {
        true
    }

    open spec fn eq_spec(&self, other: &Module) -> bool {
        self.value@ == other.value@
    }
}

/// A label: an id and its display name.
#[derive(Debug, Clone)]
pub struct Label {
    pub id: String,
    pub name: String,
}

impl View for Label {
    type V = (Seq<char>, Seq<char>);

    open spec fn view(&self) -> (Seq<char>, Seq<char>) {
        (self.id@, self.name@)
    }
}

/// Two labels are the same label when their ids agree.
impl PartialEq for Label {
    fn eq(&self, other: &Label) -> (r: bool) {
        self.id == other.id
    }
}

impl vstd::std_specs::cmp::PartialEqSpecImpl for Label {
    open spec fn obeys_eq_spec() -> bool {
        true
    }

    open spec fn eq_spec(&self, other: &Label) -> bool {
        self.id@ == other.id@
    }
}

/// A node of the department tree; `level` is its depth below the root.
#[derive(Debug)]
pub struct Department {
    pub id: String,
    pub name: String,
    pub children: Vec<Department>,
    pub level: i32,
}

/// The node is cut off by a depth limit (`-1` means no limit).
pub open spec fn pruned(d: Department, max_level: i32) -> bool {
    max_level != -1 && d.level > max_level
}

/// The nodes of the trees `ds` whose name contains `q`, depth first, each
/// parent before its children, pruned below `max_level`.
pub open spec fn search_forest(ds: Seq<Department>, q: Seq<char>, max_level: i32) -> Seq<Department>
    decreases ds,
{
    if ds.len() == 0 {
        Seq::<Department>::empty()
    } else {
        let d = ds.last();
        search_forest(ds.drop_last(), q, max_level) + if pruned(d, max_level) {
            Seq::<Department>::empty()
        } else {
            (if is_infix(q, d.name@) {
                seq![d]
            } else {
                Seq::<Department>::empty()
            }) + search_forest(d.children@, q, max_level)
        }
    }
}

/// The search below a single root.
pub open spec fn search_tree(d: Department, q: Seq<char>, max_level: i32) -> Seq<Department> {
    search_forest(seq![d], q, max_level)
}

proof fn lemma_search_single(d: Department, q: Seq<char>, max_level: i32)
    ensures
        search_tree(d, q, max_level) == if pruned(d, max_level) {
            Seq::<Department>::empty()
        } else {
            (if is_infix(q, d.name@) {
                seq![d]
            } else {
                Seq::<Department>::empty()
            }) + search_forest(d.children@, q, max_level)
        },
{
    let s = seq![d];
    assert(s.drop_last() =~= Seq::<Department>::empty());
    assert(s.last() == d);
    assert(search_forest(Seq::<Department>::empty(), q, max_level) == Seq::<Department>::empty());
    assert(Seq::<Department>::empty() + search_tree(d, q, max_level) == search_tree(d, q, max_level));
}

/// The nodes that a list of references points to.
pub open spec fn derefs(s: Seq<&Department>) -> Seq<Department> {
    s.map_values(|d: &Department| *d)
}

impl Department {
    /// All nodes of this tree whose name contains `name`, depth first,
    /// parent before children; nodes deeper than `max_level` are skipped
    /// with their subtrees, unless `max_level` is `-1`.
    pub fn find<'a>(&'a self, name: &str, max_level: i32) -> (r: Vec<&'a Department>)
        ensures
            derefs(r@) == search_tree(*self, name@, max_level),
        decreases self,
    {
        proof {
            lemma_search_single(*self, name@, max_level);
        }
        let mut result: Vec<&'a Department> = Vec::new();
        if max_level != -1 && self.level > max_level {
            assert(derefs(result@) =~= Seq::<Department>::empty());
            return result;
        }
        if str_contains(self.name.as_str(), name) {
            result.push(self);
            assert(derefs(result@) =~= seq![*self]);
        } else {
            assert(derefs(result@) =~= Seq::<Department>::empty());
        }
        let ghost head = derefs(result@);
        assert(self.children@.subrange(0, 0) =~= Seq::<Department>::empty());
        assert(derefs(result@) =~= head + search_forest(self.children@.subrange(0, 0), name@, max_level));
        let mut i: usize = 0;
        while i < self.children.len()
            invariant
                i <= self.children@.len(),
                derefs(result@) == head + search_forest(self.children@.subrange(0, i as int), name@, max_level),
            decreases self.children@.len() - i,
        {
            let child = &self.children[i];
            proof {
                assert(decreases_to!(self => self.children));
                assert(decreases_to!(self.children => self.children[i as int]));
            }
            let found = child.find(name, max_level);
            proof {
                lemma_search_single(*child, name@, max_level);
                let pre = self.children@.subrange(0, i + 1);
                assert(pre.drop_last() =~= self.children@.subrange(0, i as int));
                assert(pre.last() == *child);
            }
            let mut k: usize = 0;
            let ghost mid = derefs(result@);
            assert(derefs(result@) =~= mid + derefs(found@.subrange(0, 0)));
            while k < found.len()
                invariant
                    k <= found@.len(),
                    derefs(result@) == mid + derefs(found@.subrange(0, k as int)),
                decreases found@.len() - k,
            {
                let ghost before = result@;
                result.push(found[k]);
                assert(result@ == before.push(found@[k as int]));
                assert(derefs(result@) =~= derefs(before).push(*found@[k as int]));
                assert(found@.subrange(0, k + 1) =~= found@.subrange(0, k as int).push(found@[k as int]));
                assert(derefs(found@.subrange(0, k + 1)) =~= derefs(found@.subrange(0, k as int)).push(*found@[k as int]));
                assert(derefs(result@) =~= mid + derefs(found@.subrange(0, k + 1)));
                k += 1;
            }
            assert(found@.subrange(0, found@.len() as int) =~= found@);
            assert(derefs(result@) == mid + derefs(found@));
            assert(search_forest(self.children@.subrange(0, i + 1), name@, max_level)
                == search_forest(self.children@.subrange(0, i as int), name@, max_level) + derefs(found@));
            assert(derefs(result@) =~= head + search_forest(self.children@.subrange(0, i + 1), name@, max_level));
            i += 1;
        }
        assert(self.children@.subrange(0, self.children@.len() as int) =~= self.children@);
        result
    }

    /// The first node that `find` gives, if any.
    pub fn find_one<'a>(&'a self, name: &str, max_level: i32) -> (r: Option<&'a Department>)
        ensures
            search_tree(*self, name@, max_level).len() == 0 ==> r is None,
            search_tree(*self, name@, max_level).len() > 0 ==> r is Some && *r->0 == search_tree(
                *self,
                name@,
                max_level,
            )[0],
    {
        let found = self.find(name, max_level);
        if found.len() == 0 {
            None
        } else {
            Some(found[0])
        }
    }
}

} // verus!
