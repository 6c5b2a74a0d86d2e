use vstd::prelude::*;
use crate::status::{Status, status_of};
use crate::tags::{Department, Label, Module};
use crate::text::{comma_pieces, same_text, split_commas};
use crate::time::{period_of, parsed_datetime, TimeError, TimePeriod, Timestamp};

verus! {

/// A loosely typed value of an activity's extra attributes: a text, a list
/// whose elements are texts or something else, or anything else.
#[derive(Debug, Clone)]
pub enum Attr {
    Text(String),
    List(Vec<Option<String>>),
    Other,
}

/// One activity (a "second class") as the portal describes it.
#[derive(Debug, Clone)]
pub struct SecondClass {
    pub id: String,
    pub name: String,
    pub status_code: i32,
    pub apply_num: Option<i32>,
    pub apply_limit: Option<i32>,
    pub boolean_registration: Option<i32>,
    pub need_sign_info_str: Option<String>,
    pub conceive: Option<String>,
    pub base_content: Option<String>,
    /// `"1"` marks a series whose registrable instances are its children.
    pub item_category: Option<String>,
    pub create_time_str: Option<String>,
    pub apply_start: Option<String>,
    pub apply_end: Option<String>,
    pub start_time: Option<String>,
    pub end_time: Option<String>,
    pub tel: Option<String>,
    /// Every further attribute of the record, by key, in record order.
    pub raw: Vec<(String, Attr)>,
}

/// The value of the first attribute named `key`.
pub open spec fn lookup(raw: Seq<(String, Attr)>, key: Seq<char>) -> Option<Attr>
    decreases raw.len(),
{
    if raw.len() == 0 {
        None
    } else if raw[0].0@ == key {
        Some(raw[0].1)
    } else {
        lookup(raw.drop_first(), key)
    }
}

/// The text stored under `key`, if that attribute is a text.
pub open spec fn text_at(raw: Seq<(String, Attr)>, key: Seq<char>) -> Option<Seq<char>> {
    match lookup(raw, key) {
        Some(Attr::Text(s)) => Some(s@),
        _ => None,
    }
}

/// The view of an optional owned text.
pub open spec fn opt_text(s: Option<String>) -> Option<Seq<char>> {
    match s {
        Some(t) => Some(t@),
        None => None,
    }
}

/// An optional text, or the empty text where it is absent.
pub open spec fn text_or_empty(s: Option<String>) -> Seq<char> {
    match s {
        Some(t) => t@,
        None => Seq::<char>::empty(),
    }
}

/// The department name: the first of its three possible keys that holds a text.
pub open spec fn dept_name_of(raw: Seq<(String, Attr)>) -> Seq<char> {
    if text_at(raw, "businessDeptId_dictText"@) is Some {
        text_at(raw, "businessDeptId_dictText"@)->0
    } else if text_at(raw, "businessDeptName"@) is Some {
        text_at(raw, "businessDeptName"@)->0
    } else if text_at(raw, "bussinessDeptName"@) is Some {
        text_at(raw, "bussinessDeptName"@)->0
    } else {
        Seq::<char>::empty()
    }
}

/// The labels paired from comma-separated ids and a parallel list of names;
/// an id whose name is missing or not a text is left out.
pub open spec fn paired_labels(ids: Seq<Seq<char>>, names: Seq<Option<String>>) -> Seq<(Seq<char>, Seq<char>)>
    decreases ids.len(),
{
    if ids.len() == 0 {
        Seq::empty()
    } else {
        let i = ids.len() - 1;
        let rest = paired_labels(ids.drop_last(), names);
        if i < names.len() && names[i] is Some {
            rest.push((ids[i], names[i]->0@))
        } else {
            rest
        }
    }
}

/// The labels of an activity's attributes, as (id, name) pairs.
pub open spec fn labels_of(raw: Seq<(String, Attr)>) -> Seq<(Seq<char>, Seq<char>)> {
    match (text_at(raw, "itemLable"@), lookup(raw, "lableNames"@)) {
        (Some(ids), Some(Attr::List(names))) => paired_labels(comma_pieces(ids), names@),
        _ => Seq::empty(),
    }
}

/// Whether an optional text is exactly `"1"`.
pub open spec fn is_one(s: Option<String>) -> bool {
    opt_text(s) == Some("1"@)
}

impl SecondClass {
    pub open spec fn status_spec(&self) -> Status {
        status_of(self.status_code)
    }

    pub open spec fn applied_spec(&self) -> bool {
        match self.boolean_registration {
            Some(v) => v == 1,
            None => false,
        }
    }

    pub open spec fn applyable_spec(&self) -> bool {
        &&& self.status_spec() == Status::Applying
        &&& !self.applied_spec()
        &&& (match self.apply_num { Some(v) => v as int, None => 0 }) < (match self.apply_limit {
            Some(v) => v as int,
            None => 0,
        })
    }

    pub open spec fn hold_time_spec(&self) -> Result<TimePeriod, TimeError> {
        period_of(text_or_empty(self.start_time), opt_text(self.end_time))
    }

    pub open spec fn apply_time_spec(&self) -> Result<TimePeriod, TimeError> {
        period_of(text_or_empty(self.apply_start), opt_text(self.apply_end))
    }

    pub open spec fn is_series_spec(&self) -> bool {
        is_one(self.item_category)
    }

    /// The (code, text) of the activity's module, where both are texts.
    pub open spec fn module_spec(&self) -> Option<(Seq<char>, Seq<char>)> {
        match (text_at(self.raw@, "module"@), text_at(self.raw@, "module_dictText"@)) {
            (Some(v), Some(t)) => Some((v, t)),
            _ => None,
        }
    }

    /// The (id, name) of the activity's department, where the id is a text.
    pub open spec fn department_spec(&self) -> Option<(Seq<char>, Seq<char>)> {
        match text_at(self.raw@, "businessDeptId"@) {
            Some(id) => Some((id, dept_name_of(self.raw@))),
            None => None,
        }
    }

    /// The status that the status code stands for.
    pub fn status(&self) -> (r: Status)
        ensures
            r == self.status_spec(),
    {
        Status::from(self.status_code)
    }

    /// When the record was created.
    pub fn create_time(&self) -> (r: Result<Timestamp, TimeError>)
        ensures
            match parsed_datetime(text_or_empty(self.create_time_str)) {
                Some(t) => r == Ok::<Timestamp, TimeError>(t),
                None => r == Err::<Timestamp, TimeError>(TimeError::BadTimestamp),
            },
    {
        match &self.create_time_str {
            Some(s) => TimePeriod::parse(s.as_str()),
            None => {
                assert(""@ =~= Seq::<char>::empty()) by {
                    reveal_strlit("");
                }
                TimePeriod::parse("")
            },
        }
    }

    /// The window in which applications are taken.
    pub fn apply_time(&self) -> (r: Result<TimePeriod, TimeError>)
        ensures
            r == self.apply_time_spec(),
    {
        period_from(&self.apply_start, &self.apply_end)
    }

    /// When the activity takes place.
    pub fn hold_time(&self) -> (r: Result<TimePeriod, TimeError>)
        ensures
            r == self.hold_time_spec(),
    {
        period_from(&self.start_time, &self.end_time)
    }

    /// The participant is registered already.
    pub fn applied(&self) -> (r: bool)
        ensures
            r == self.applied_spec(),
    {
        match self.boolean_registration {
            Some(v) => v == 1,
            None => false,
        }
    }

    /// Open for application, not applied yet, and with a free place (a
    /// missing limit counts as no place at all).
    pub fn applyable(&self) -> (r: bool)
        ensures
            r == self.applyable_spec(),
    {
        let num: i32 = match self.apply_num {
            Some(v) => v,
            None => 0,
        };
        let limit: i32 = match self.apply_limit {
            Some(v) => v,
            None => 0,
        };
        self.status() == Status::Applying && !self.applied() && num < limit
    }

    /// Registering needs the participant's contact details.
    pub fn need_sign_info(&self) -> (r: bool)
        ensures
            r == is_one(self.need_sign_info_str),
    {
        is_one_text(&self.need_sign_info_str)
    }

    /// The activity is a series.
    pub fn is_series(&self) -> (r: bool)
        ensures
            r == self.is_series_spec(),
    {
        is_one_text(&self.item_category)
    }

    /// The attribute stored under `key`, if any.
    pub fn attr<'a>(&'a self, key: &str) -> (r: Option<&'a Attr>)
        ensures
            match lookup(self.raw@, key@) {
                Some(a) => r is Some && *r->0 == a,
                None => r is None,
            },
    {
        let mut i: usize = 0;
        assert(self.raw@.subrange(0, self.raw@.len() as int) =~= self.raw@);
        while i < self.raw.len()
            invariant
                i <= self.raw@.len(),
                lookup(self.raw@, key@) == lookup(self.raw@.subrange(i as int, self.raw@.len() as int), key@),
            decreases self.raw@.len() - i,
        {
            let ghost rest = self.raw@.subrange(i as int, self.raw@.len() as int);
            if same_text(self.raw[i].0.as_str(), key) {
                return Some(&self.raw[i].1);
            }
            assert(rest.drop_first() =~= self.raw@.subrange(i + 1, self.raw@.len() as int));
            i += 1;
        }
        None
    }

    /// The text stored under `key`, if that attribute is a text.
    pub fn text_attr<'a>(&'a self, key: &str) -> (r: Option<&'a String>)
        ensures
            match text_at(self.raw@, key@) {
                Some(t) => r is Some && r->0@ == t,
                None => r is None,
            },
    {
        match self.attr(key) {
            Some(Attr::Text(s)) => Some(s),
            _ => None,
        }
    }

    /// The module this activity belongs to; nothing where either its code or
    /// its text is missing.
    pub fn module(&self) -> (r: Option<Module>)
        ensures
            match self.module_spec() {
                Some(m) => r is Some && r->0@ == m,
                None => r is None,
            },
    {
        let value = match self.text_attr("module") {
            Some(v) => v.clone(),
            None => return None,
        };
        let text = match self.text_attr("module_dictText") {
            Some(t) => t.clone(),
            None => return None,
        };
        Some(Module { value, text })
    }

    /// The organising department, without children; nothing where its id is
    /// missing. The name is the first one present among the three keys the
    /// portal uses for it, or empty.
    pub fn department(&self) -> (r: Option<Department>)
        ensures
            match self.department_spec() {
                Some(d) => r is Some && (r->0.id@, r->0.name@) == d && r->0.children@.len() == 0
                    && r->0.level == -1,
                None => r is None,
            },
    {
        let id = match self.text_attr("businessDeptId") {
            Some(v) => v.clone(),
            None => return None,
        };
        let name = match self.text_attr("businessDeptId_dictText") {
            Some(n) => n.clone(),
            None => match self.text_attr("businessDeptName") {
                Some(n) => n.clone(),
                None => match self.text_attr("bussinessDeptName") {
                    Some(n) => n.clone(),
                    None => String::new(),
                },
            },
        };
        Some(Department { id, name, children: Vec::new(), level: -1 })
    }

    /// The labels of the activity: each comma-separated id of `itemLable`
    /// paired with the text at the same position of `lableNames`.
    pub fn labels(&self) -> (r: Vec<Label>)
        ensures
            r@.map_values(|l: Label| l@) == labels_of(self.raw@),
    {
        let mut result: Vec<Label> = Vec::new();
        let ids = match self.text_attr("itemLable") {
            Some(s) => s,
            None => return result,
        };
        let names = match self.attr("lableNames") {
            Some(Attr::List(names)) => names,
            _ => return result,
        };
        let pieces = split_commas(ids.as_str());
        let ghost ids_v = pieces@.map_values(|p: String| p@);
        let mut i: usize = 0;
        while i < pieces.len()
            invariant
                i <= pieces@.len(),
                ids_v == pieces@.map_values(|p: String| p@),
                result@.map_values(|l: Label| l@) == paired_labels(ids_v.subrange(0, i as int), names@),
            decreases pieces@.len() - i,
        {
            proof {
                let pre = ids_v.subrange(0, i + 1);
                assert(pre.drop_last() =~= ids_v.subrange(0, i as int));
                assert(pre[i as int] == pieces@[i as int]@);
            }
            if i < names.len() {
                match &names[i] {
                    Some(n) => {
                        let ghost before = result@;
                        let label = Label { id: pieces[i].clone(), name: n.clone() };
                        result.push(label);
                        assert(result@.map_values(|l: Label| l@) =~= before.map_values(|l: Label| l@).push(label@));
                    },
                    None => {},
                }
            }
            i += 1;
        }
        assert(ids_v.subrange(0, pieces@.len() as int) =~= ids_v);
        result
    }
}

/// Whether an optional text is exactly `"1"`.
fn is_one_text(s: &Option<String>) -> (r: bool)
    ensures
        r == is_one(*s),
{
    match s {
        Some(t) => same_text(t.as_str(), "1"),
        None => false,
    }
}

/// The period read from an optional start text and an optional end text.
fn period_from(start: &Option<String>, end: &Option<String>) -> (r: Result<TimePeriod, TimeError>)
    ensures
        r == period_of(text_or_empty(*start), opt_text(*end)),
{
    let s: &str = match start {
        Some(s) => s.as_str(),
        None => "",
    };
    assert(s@ == text_or_empty(*start)) by {
        if start is None {
            reveal_strlit("");
        }
    }
    match end {
        Some(e) => TimePeriod::parse_period(s, Some(e.as_str())),
        None => TimePeriod::parse_period(s, None),
    }
}

} // verus!
