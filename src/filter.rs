use vstd::prelude::*;
use crate::activity::{labels_of, SecondClass};
use crate::tags::{Department, Label, Module};
use crate::text::{comma_joined, is_infix, join_commas, lower_of, lowercase, str_contains};
use crate::time::TimePeriod;

verus! {

/// A query over activities: name (exact or fuzzy), module, department,
/// labels, and a time window that activities must lie in or meet.
#[derive(Debug)]
pub struct SCFilter {
    pub name: String,
    pub time_period: Option<TimePeriod>,
    pub module: Option<Module>,
    pub department: Option<Department>,
    pub labels: Vec<Label>,
    pub fuzzy_name: bool,
    pub strict_time: bool,
}

impl Default for SCFilter {
    fn default() -> (r: SCFilter)
        ensures
            r.is_empty_filter(),
    {
        SCFilter {
            name: String::new(),
            time_period: None,
            module: None,
            department: None,
            labels: Vec::new(),
            fuzzy_name: false,
            strict_time: false,
        }
    }
}

impl SCFilter {
    /// No field of the filter is set.
    pub open spec fn is_empty_filter(&self) -> bool {
        &&& self.name@.len() == 0
        &&& self.time_period is None
        &&& self.module is None
        &&& self.department is None
        &&& self.labels@.len() == 0
        &&& !self.fuzzy_name
        &&& !self.strict_time
    }

    pub open spec fn name_ok(&self, sc: SecondClass) -> bool {
        if self.fuzzy_name {
            is_infix(lower_of(self.name@), lower_of(sc.name@))
        } else {
            sc.name@ == self.name@
        }
    }

    pub open spec fn module_ok(&self, sc: SecondClass) -> bool {
        match (self.module, sc.module_spec()) {
            (Some(m), Some(sm)) => sm.0 == m.value@,
            _ => true,
        }
    }

    pub open spec fn department_ok(&self, sc: SecondClass) -> bool {
        match (self.department, sc.department_spec()) {
            (Some(d), Some(sd)) => sd.0 == d.id@,
            _ => true,
        }
    }

    /// No labels asked for, or one of them is among the activity's labels.
    pub open spec fn labels_ok(&self, sc: SecondClass) -> bool {
        self.labels@.len() == 0 || exists|i: int, j: int|
            0 <= i < self.labels@.len() && 0 <= j < labels_of(sc.raw@).len()
                && #[trigger] labels_of(sc.raw@)[j].0 == #[trigger] self.labels@[i].id@
    }

    /// The loose phase: name, module, department and labels.
    pub open spec fn loose_ok(&self, sc: SecondClass) -> bool {
        self.name_ok(sc) && self.module_ok(sc) && self.department_ok(sc) && self.labels_ok(sc)
    }

    /// The strict phase: the time window, where the activity's time can be read.
    pub open spec fn strict_ok(&self, sc: SecondClass) -> bool {
        match self.time_period {
            Some(p) => match sc.hold_time_spec() {
                Ok(ht) => if self.strict_time {
                    p.contains_spec(ht)
                } else {
                    p.overlaps_spec(ht)
                },
                Err(_) => true,
            },
            None => true,
        }
    }

    pub open spec fn check_spec(&self, sc: SecondClass, only_strict: bool) -> bool {
        (only_strict || self.loose_ok(sc)) && self.strict_ok(sc)
    }

    /// The parameters that narrow the portal's own query: only the fields
    /// that are set, with label ids joined by commas.
    pub open spec fn params_spec(&self) -> Seq<(Seq<char>, Seq<char>)> {
        let a = if self.name@.len() > 0 {
            seq![("itemName"@, self.name@)]
        } else {
            Seq::empty()
        };
        let b = match self.module {
            Some(m) => a.push(("module"@, m.value@)),
            None => a,
        };
        let c = match self.department {
            Some(d) => b.push(("businessDeptId"@, d.id@)),
            None => b,
        };
        if self.labels@.len() > 0 {
            c.push(("itemLable"@, comma_joined(self.labels@.map_values(|l: Label| l.id@))))
        } else {
            c
        }
    }

    /// A filter with nothing set.
    pub fn new() -> (r: SCFilter)
        ensures
            r.is_empty_filter(),
    {
        SCFilter::default()
    }

    pub fn name(self, name: &str) -> (r: SCFilter)
        ensures
            r == (SCFilter { name: r.name, ..self }),
            r.name@ == name@,
    {
        let mut f = self;
        f.name = String::from_str(name);
        f
    }

    pub fn module(self, module: Module) -> (r: SCFilter)
        ensures
            r == (SCFilter { module: Some(module), ..self }),
    {
        let mut f = self;
        f.module = Some(module);
        f
    }

    pub fn department(self, dept: Department) -> (r: SCFilter)
        ensures
            r == (SCFilter { department: Some(dept), ..self }),
    {
        let mut f = self;
        f.department = Some(dept);
        f
    }

    pub fn time_period(self, period: TimePeriod) -> (r: SCFilter)
        ensures
            r == (SCFilter { time_period: Some(period), ..self }),
    {
        let mut f = self;
        f.time_period = Some(period);
        f
    }

    pub fn strict_time(self, strict: bool) -> (r: SCFilter)
        ensures
            r == (SCFilter { strict_time: strict, ..self }),
    {
        let mut f = self;
        f.strict_time = strict;
        f
    }

    pub fn add_label(self, label: Label) -> (r: SCFilter)
        ensures
            r == (SCFilter { labels: r.labels, ..self }),
            r.labels@ == self.labels@.push(label),
    {
        let mut f = self;
        f.labels.push(label);
        f
    }

    /// The query parameters, as (key, value) pairs.
    pub fn to_params(&self) -> (r: Vec<(String, String)>)
        ensures
            r@.map_values(|p: (String, String)| (p.0@, p.1@)) == self.params_spec(),
    {
        let mut params: Vec<(String, String)> = Vec::new();
        let ghost v = |p: (String, String)| (p.0@, p.1@);
        if self.name.unicode_len() > 0 {
            params.push((String::from_str("itemName"), self.name.clone()));
        }
        assert(params@.map_values(v) =~= (if self.name@.len() > 0 {
            seq![("itemName"@, self.name@)]
        } else {
            Seq::empty()
        }));
        let ghost a = params@.map_values(v);
        match &self.module {
            Some(m) => {
                params.push((String::from_str("module"), m.value.clone()));
                assert(params@.map_values(v) =~= a.push(("module"@, m.value@)));
            },
            None => {},
        }
        let ghost b = params@.map_values(v);
        match &self.department {
            Some(d) => {
                params.push((String::from_str("businessDeptId"), d.id.clone()));
                assert(params@.map_values(v) =~= b.push(("businessDeptId"@, d.id@)));
            },
            None => {},
        }
        let ghost c = params@.map_values(v);
        if self.labels.len() > 0 {
            let mut ids: Vec<String> = Vec::new();
            let mut i: usize = 0;
            while i < self.labels.len()
                invariant
                    i <= self.labels@.len(),
                    ids@.map_values(|p: String| p@) == self.labels@.subrange(0, i as int).map_values(
                        |l: Label| l.id@,
                    ),
                decreases self.labels@.len() - i,
            {
                let ghost before = ids@;
                let id = self.labels[i].id.clone();
                ids.push(id);
                assert(ids@ == before.push(id));
                assert(id@ == self.labels@[i as int].id@);
                assert(ids@.map_values(|p: String| p@) =~= before.map_values(|p: String| p@).push(id@));
                assert(self.labels@.subrange(0, i + 1) =~= self.labels@.subrange(0, i as int).push(self.labels@[i as int]));
                assert(ids@.map_values(|p: String| p@) =~= self.labels@.subrange(0, i + 1).map_values(
                    |l: Label| l.id@,
                ));
                i += 1;
            }
            assert(self.labels@.subrange(0, self.labels@.len() as int) =~= self.labels@);
            let joined = join_commas(&ids);
            params.push((String::from_str("itemLable"), joined));
            assert(params@.map_values(v) =~= c.push(
                ("itemLable"@, comma_joined(self.labels@.map_values(|l: Label| l.id@))),
            ));
        }
        params
    }

    /// Whether the activity passes the filter. The loose phase (name, module,
    /// department, labels) is skipped when `only_strict` holds; the strict
    /// phase (the time window) always runs, and lets pass an activity whose
    /// time cannot be read.
    pub fn check(&self, sc: &SecondClass, only_strict: bool) -> (r: bool)
        ensures
            r == self.check_spec(*sc, only_strict),
    {
        if !only_strict {
            if self.fuzzy_name {
                let hay = lowercase(sc.name.as_str());
                let needle = lowercase(self.name.as_str());
                if !str_contains(hay.as_str(), needle.as_str()) {
                    return false;
                }
            } else if sc.name != self.name {
                return false;
            }
            match (&self.module, sc.module()) {
                (Some(m), Some(sm)) => {
                    if sm.value != m.value {
                        return false;
                    }
                },
                _ => {},
            }
            match (&self.department, sc.department()) {
                (Some(d), Some(sd)) => {
                    if sd.id != d.id {
                        return false;
                    }
                },
                _ => {},
            }
            if !self.labels_match(sc) {
                return false;
            }
        }
        match &self.time_period {
            Some(period) => match sc.hold_time() {
                Ok(ht) => {
                    if self.strict_time {
                        period.is_contain(&ht)
                    } else {
                        period.is_overlap(&ht)
                    }
                },
                Err(_) => true,
            },
            None => true,
        }
    }

    fn labels_match(&self, sc: &SecondClass) -> (r: bool)
        ensures
            r == self.labels_ok(*sc),
    {
        if self.labels.len() == 0 {
            return true;
        }
        let have = sc.labels();
        let ghost hv = have@.map_values(|l: Label| l@);
        assert(hv == labels_of(sc.raw@));
        let mut i: usize = 0;
        while i < self.labels.len()
            invariant
                i <= self.labels@.len(),
                hv == have@.map_values(|l: Label| l@),
                hv == labels_of(sc.raw@),
                forall|a: int, b: int|
                    0 <= a < i && 0 <= b < hv.len() ==> #[trigger] hv[b].0 != #[trigger] self.labels@[a].id@,
            decreases self.labels@.len() - i,
        {
            let mut j: usize = 0;
            while j < have.len()
                invariant
                    i < self.labels@.len(),
                    j <= have@.len(),
                    hv == have@.map_values(|l: Label| l@),
                    hv == labels_of(sc.raw@),
                    forall|a: int, b: int|
                        0 <= a < i && 0 <= b < hv.len() ==> #[trigger] hv[b].0 != #[trigger] self.labels@[a].id@,
                    forall|b: int| 0 <= b < j ==> #[trigger] hv[b].0 != self.labels@[i as int].id@,
                decreases have@.len() - j,
            {
                if have[j].id == self.labels[i].id {
                    assert(hv[j as int] == have@[j as int]@);
                    assert(labels_of(sc.raw@)[j as int].0 == self.labels@[i as int].id@);
                    return true;
                }
                j += 1;
            }
            i += 1;
        }
        false
    }
}

/// An empty label set lets every activity pass the label check; a label set
/// sharing no id with the activity's labels stops it.
pub proof fn lemma_label_check(f: SCFilter, sc: SecondClass)
    ensures
        f.labels@.len() == 0 ==> f.labels_ok(sc),
        f.labels@.len() > 0 && (forall|i: int, j: int|
            0 <= i < f.labels@.len() && 0 <= j < labels_of(sc.raw@).len()
                ==> labels_of(sc.raw@)[j].0 != f.labels@[i].id@) ==> !f.labels_ok(sc),
{
}

} // verus!
