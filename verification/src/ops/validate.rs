//! Validation of a manifest: naming rules, unique ids, pipe outputs, the pipe
//! graph and object dependencies. Each validator collects what it needs by
//! visiting entities, then reports (location, message) findings.
use crate::error::{copy_text, findings_view, Error, ValidationErrorDetailsDisplay};
use crate::models::constants::{
    CONTEXT_STORE_ENTITY_ID_FIELD, DATA_FIELD_ENTITY_ID_FIELD, OBJECT_ENTITY_ID_FIELD, PIPE_ENTITY_DEPENDENCY_FIELD,
    PIPE_ENTITY_ID_FIELD, PIPE_OUTPUT_FIELD,
};
use crate::models::app::App;
use crate::models::context::ContextStore;
use crate::models::data::{field_name, fields_deps, DataField, Object};
use crate::models::pipe::{is_sink_type, is_source_type, Pipe};
use crate::models::pipe::contains_str;
use crate::models::{Entity, EntityAccept, VisitEntity};
use crate::models::pipe::pipe_upstreams;
use crate::ops::graph::{lemma_push_contains_ids, nested_views, pick, with_ids, DirectedGraph, PipeGraph};
use crate::text::{decimal, str_eq, usize_to_string, views};
use vstd::prelude::*;
use vstd::string::StrSliceExecFns;

verus! {

/// Whether `c` is an ASCII character.
pub open spec fn is_ascii_char(c: char) -> bool {
    (c as int) < 128
}

/// Whether `c` is an ASCII uppercase letter.
pub open spec fn is_ascii_upper(c: char) -> bool {
    65 <= (c as int) <= 90
}

/// Whether `c` has the Unicode numeric property, as `char::is_numeric` reports it.
pub uninterp spec fn unicode_numeric(c: char) -> bool;

/// Calls `char::is_numeric`, whose result is named `unicode_numeric`; the
/// Unicode tables it consults are not restated here.
#[verifier::external_body]
fn char_is_numeric(c: char) -> (r: bool)
    ensures
        r == unicode_numeric(c),
{
    c.is_numeric()
}

fn char_is_ascii(c: char) -> (r: bool)
    ensures
        r == is_ascii_char(c),
{
    (c as u32) < 128
}

fn char_is_ascii_upper(c: char) -> (r: bool)
    ensures
        r == is_ascii_upper(c),
{
    let u = c as u32;
    65 <= u && u <= 90
}

/// Character `j` of `s` may stand where `s` is snake case in the given letter
/// case: the first character is ASCII; an `_` follows a character that is not
/// `_`; any other character is numeric or an ASCII character of that case.
pub open spec fn snake_char_ok(s: Seq<char>, j: int, uppercase: bool) -> bool {
    &&& j == 0 ==> is_ascii_char(s[0])
    &&& if s[j] == '_' {
        j > 0 && s[j - 1] != '_'
    } else {
        unicode_numeric(s[j]) || (is_ascii_char(s[j]) && is_ascii_upper(s[j]) == uppercase)
    }
}

/// `s` is snake case in the given letter case: no `_` leads and no two `_`
/// stand in a row (see [`snake_char_ok`]).
pub open spec fn is_snake(s: Seq<char>, uppercase: bool) -> bool {
    forall|j: int| 0 <= j < s.len() ==> #[trigger] snake_char_ok(s, j, uppercase)
}

/// Character `j` of `s` may stand where `s` is camel case: the first character
/// is an ASCII uppercase letter, every character is ASCII or numeric, and no
/// uppercase letter follows another.
pub open spec fn camel_char_ok(s: Seq<char>, j: int) -> bool {
    &&& j == 0 ==> is_ascii_upper(s[0])
    &&& is_ascii_char(s[j]) || unicode_numeric(s[j])
    &&& j > 0 && is_ascii_upper(s[j]) ==> !is_ascii_upper(s[j - 1])
}

/// `s` is camel case (see [`camel_char_ok`]).
pub open spec fn is_camel(s: Seq<char>) -> bool {
    forall|j: int| 0 <= j < s.len() ==> #[trigger] camel_char_ok(s, j)
}

/// The naming rules an id can be held to.
#[derive(Clone, Copy, Debug, PartialEq, Eq)]
pub enum IdRule {
    NonEmpty,
    SnakeCase,
    CamelCase,
}

/// Whether `s` follows `rule`.
pub open spec fn rule_holds(rule: IdRule, s: Seq<char>) -> bool {
    match rule {
        IdRule::NonEmpty => s.len() > 0,
        IdRule::SnakeCase => is_snake(s, false),
        IdRule::CamelCase => is_camel(s),
    }
}

/// Whether `s` is lower snake case.
pub fn is_snake_lower_case(s: &str) -> (r: bool)
    ensures
        r == is_snake(s@, false),
{
    is_snake_case(s, false)
}

/// Whether `s` is snake case of the given letter case.
pub fn is_snake_case(s: &str, uppercase: bool) -> (r: bool)
    ensures
        r == is_snake(s@, uppercase),
{
    let n = s.unicode_len();
    let mut underscore = true;
    let mut i: usize = 0;
    while i < n
        invariant
            n == s@.len(),
            i <= n,
            forall|j: int| 0 <= j < i ==> #[trigger] snake_char_ok(s@, j, uppercase),
            underscore == (i == 0 || s@[i - 1] == '_'),
        decreases n - i,
    {
        let c = s.get_char(i);
        if i == 0 && !char_is_ascii(c) {
            assert(!snake_char_ok(s@, 0, uppercase));
            return false;
        }
        if c == '_' {
            if underscore {
                // a leading or doubled underscore
                assert(!snake_char_ok(s@, i as int, uppercase));
                return false;
            }
            underscore = true;
            i = i + 1;
            continue;
        }
        if char_is_numeric(c) {
            underscore = false;
            i = i + 1;
            continue;
        }
        if char_is_ascii(c) && char_is_ascii_upper(c) == uppercase {
            underscore = false;
            i = i + 1;
            continue;
        }
        assert(!snake_char_ok(s@, i as int, uppercase));
        return false;
    }
    true
}

/// Whether `s` is camel case.
pub fn is_camel_case(s: &str) -> (r: bool)
    ensures
        r == is_camel(s@),
{
    let n = s.unicode_len();
    let mut uppercase = false;
    let mut i: usize = 0;
    while i < n
        invariant
            n == s@.len(),
            i <= n,
            forall|j: int| 0 <= j < i ==> #[trigger] camel_char_ok(s@, j),
            uppercase == (i > 0 && is_ascii_upper(s@[i - 1])),
        decreases n - i,
    {
        let c = s.get_char(i);
        if i == 0 && !char_is_ascii_upper(c) {
            assert(!camel_char_ok(s@, 0));
            return false;
        }
        if !(char_is_ascii(c) || char_is_numeric(c)) {
            assert(!camel_char_ok(s@, i as int));
            return false;
        }
        if char_is_ascii_upper(c) {
            if uppercase {
                assert(!camel_char_ok(s@, i as int));
                return false;
            }
            uppercase = true;
            i = i + 1;
            continue;
        }
        uppercase = false;
        i = i + 1;
    }
    true
}

/// Whether `s` is not empty.
pub fn is_non_empty(s: &str) -> (r: bool)
    ensures
        r == (s@.len() > 0),
{
    s.unicode_len() > 0
}

/// Whether `s` follows `rule`.
pub fn check_rule(rule: IdRule, s: &str) -> (r: bool)
    ensures
        r == rule_holds(rule, s@),
{
    match rule {
        IdRule::NonEmpty => is_non_empty(s),
        IdRule::SnakeCase => is_snake_lower_case(s),
        IdRule::CamelCase => is_camel_case(s),
    }
}

/// The location of field `field` of item `i` at `loc`: `loc[i].field`.
pub open spec fn loc_field(loc: Seq<char>, i: int, field: Seq<char>) -> Seq<char> {
    loc + "["@ + decimal(i as nat) + "]."@ + field
}

/// The location of item `i` at `loc`: `loc[i]`.
pub open spec fn loc_item(loc: Seq<char>, i: int) -> Seq<char> {
    loc + "["@ + decimal(i as nat) + "]"@
}

/// `loc[i].field` as text.
pub fn field_location(loc: &str, i: usize, field: &str) -> (r: String)
    ensures
        r@ == loc_field(loc@, i as int, field@),
{
    let mut r = String::new();
    r.append(loc);
    r.append("[");
    let d = usize_to_string(i);
    r.append(d.as_str());
    r.append("].");
    r.append(field);
    r
}

/// `loc[i]` as text.
pub fn item_location(loc: &str, i: usize) -> (r: String)
    ensures
        r@ == loc_item(loc@, i as int),
{
    let mut r = String::new();
    r.append(loc);
    r.append("[");
    let d = usize_to_string(i);
    r.append(d.as_str());
    r.append("]");
    r
}

/// A finding for each id that breaks `rule`, in order.
pub open spec fn predicate_findings(
    ids: Seq<Seq<char>>,
    loc: Seq<char>,
    field: Seq<char>,
    msg: Seq<char>,
    rule: IdRule,
) -> Seq<(Seq<char>, Seq<char>)>
    decreases ids.len(),
{
    if ids.len() == 0 {
        Seq::empty()
    } else {
        let rest = predicate_findings(ids.drop_last(), loc, field, msg, rule);
        if rule_holds(rule, ids.last()) {
            rest
        } else {
            rest.push((loc_field(loc, ids.len() - 1, field), msg))
        }
    }
}

/// A finding for each id that an earlier id repeats, in order.
pub open spec fn uniqueness_findings(ids: Seq<Seq<char>>, loc: Seq<char>, field: Seq<char>, msg: Seq<char>) -> Seq<
    (Seq<char>, Seq<char>),
>
    decreases ids.len(),
{
    if ids.len() == 0 {
        Seq::empty()
    } else {
        let rest = uniqueness_findings(ids.drop_last(), loc, field, msg);
        if ids.drop_last().contains(ids.last()) {
            rest.push((loc_field(loc, ids.len() - 1, field), msg))
        } else {
            rest
        }
    }
}

/// A finding `(loc[i].field, msg)` for each id that breaks `rule`.
pub fn validate_ids_with_predicate(ids: &Vec<String>, location: &str, id_field: &str, error_msg: &str, rule: IdRule) -> (r: Vec<
    (String, String),
>)
    ensures
        findings_view(r@) == predicate_findings(views(ids@), location@, id_field@, error_msg@, rule),
{
    let ghost vs = views(ids@);
    let mut r: Vec<(String, String)> = Vec::new();
    let mut i: usize = 0;
    while i < ids.len()
        invariant
            i <= ids.len(),
            vs == views(ids@),
            findings_view(r@) == predicate_findings(vs.take(i as int), location@, id_field@, error_msg@, rule),
        decreases ids.len() - i,
    {
        assert(vs.take(i + 1).drop_last() =~= vs.take(i as int));
        assert(vs.take(i + 1).last() == ids@[i as int]@);
        if !check_rule(rule, ids[i].as_str()) {
            let loc = field_location(location, i, id_field);
            let mut msg = String::new();
            msg.append(error_msg);
            let ghost r0 = r@;
            r.push((loc, msg));
            assert(findings_view(r@) =~= findings_view(r0).push((loc_field(location@, i as int, id_field@), error_msg@)));
        }
        i = i + 1;
    }
    assert(vs.take(ids.len() as int) =~= vs);
    r
}

/// Whether `ids[i]` repeats one of `ids[..i]`.
fn seen_before(ids: &Vec<String>, i: usize) -> (r: bool)
    requires
        i < ids.len(),
    ensures
        r == views(ids@).take(i as int).contains(ids@[i as int]@),
{
    let mut j: usize = 0;
    while j < i
        invariant
            j <= i,
            i < ids.len(),
            forall|k: int| 0 <= k < j ==> ids@[k]@ != ids@[i as int]@,
        decreases i - j,
    {
        if str_eq(ids[j].as_str(), ids[i].as_str()) {
            assert(views(ids@).take(i as int)[j as int] == ids@[i as int]@);
            return true;
        }
        j = j + 1;
    }
    proof {
        if views(ids@).take(i as int).contains(ids@[i as int]@) {
            let k = choose|k: int| 0 <= k < i && views(ids@).take(i as int)[k] == ids@[i as int]@;
            assert(ids@[k]@ == ids@[i as int]@);
        }
    }
    false
}

/// A finding `(loc[i].field, msg)` for each id that an earlier id repeats.
pub fn validate_ids_uniqueness(ids: &Vec<String>, location: &str, id_field: &str, error_msg: &str) -> (r: Vec<(String, String)>)
    ensures
        findings_view(r@) == uniqueness_findings(views(ids@), location@, id_field@, error_msg@),
{
    let ghost vs = views(ids@);
    let mut r: Vec<(String, String)> = Vec::new();
    let mut i: usize = 0;
    while i < ids.len()
        invariant
            i <= ids.len(),
            vs == views(ids@),
            findings_view(r@) == uniqueness_findings(vs.take(i as int), location@, id_field@, error_msg@),
        decreases ids.len() - i,
    {
        assert(vs.take(i + 1).drop_last() =~= vs.take(i as int));
        assert(vs.take(i + 1).last() == ids@[i as int]@);
        if seen_before(ids, i) {
            let loc = field_location(location, i, id_field);
            let mut msg = String::new();
            msg.append(error_msg);
            let ghost r0 = r@;
            r.push((loc, msg));
            assert(findings_view(r@) =~= findings_view(r0).push((loc_field(location@, i as int, id_field@), error_msg@)));
        }
        i = i + 1;
    }
    assert(vs.take(ids.len() as int) =~= vs);
    r
}

/// The outcome of a validation with findings `f`: `Ok` when there are none,
/// else the findings in a validation error.
pub open spec fn reported(r: Result<(), Error>, f: Seq<(Seq<char>, Seq<char>)>) -> bool {
    match r {
        Ok(_) => f.len() == 0,
        Err(Error::Validation(d)) => f.len() > 0 && findings_view(d.details@) == f,
        Err(_) => false,
    }
}

/// A copy of a list of findings.
pub fn copy_findings(d: &Vec<(String, String)>) -> (r: Vec<(String, String)>)
    ensures
        findings_view(r@) == findings_view(d@),
{
    let mut r: Vec<(String, String)> = Vec::new();
    let mut i: usize = 0;
    while i < d.len()
        invariant
            i <= d.len(),
            findings_view(r@) == findings_view(d@).take(i as int),
        decreases d.len() - i,
    {
        let ghost r0 = r@;
        r.push((d[i].0.clone(), d[i].1.clone()));
        assert(findings_view(r@) =~= findings_view(r0).push(findings_view(d@)[i as int]));
        assert(findings_view(d@).take(i + 1) =~= findings_view(d@).take(i as int).push(findings_view(d@)[i as int]));
        i = i + 1;
    }
    assert(findings_view(d@).take(d.len() as int) =~= findings_view(d@));
    r
}

/// `Ok` when there are no findings, else an error holding them.
pub fn check(details: &Vec<(String, String)>) -> (r: Result<(), Error>)
    ensures
        reported(r, findings_view(details@)),
{
    if details.len() == 0 {
        Ok(())
    } else {
        Err(Error::Validation(ValidationErrorDetailsDisplay::new(copy_findings(details))))
    }
}

/// A validator: it is created for a location in the manifest, collects what
/// it needs by visiting entities, then reports findings.
pub trait Validate: Sized {
    /// The validator was just created for `location`.
    spec fn is_new(&self, location: Seq<char>) -> bool;

    /// The findings the validator reports.
    spec fn findings(&self) -> Seq<(Seq<char>, Seq<char>)>;

    /// What the validator collected is consistent.
    spec fn inv(&self) -> bool;

    fn new(location: &str) -> (v: Self)
        ensures
            v.is_new(location@),
            v.inv(),
    ;

    fn validate(&mut self) -> (r: Result<(), Error>)
        requires
            old(self).inv(),
        ensures
            *final(self) == *old(self),
            reported(r, old(self).findings()),
    ;
}

/// The findings for ids that must follow `rule` and be unique: the rule
/// breaches if any, else the repeats.
pub open spec fn rule_then_unique(
    ids: Seq<Seq<char>>,
    loc: Seq<char>,
    field: Seq<char>,
    rule: IdRule,
    rule_msg: Seq<char>,
    dup_msg: Seq<char>,
) -> Seq<(Seq<char>, Seq<char>)> {
    let first = predicate_findings(ids, loc, field, rule_msg, rule);
    if first.len() > 0 {
        first
    } else {
        uniqueness_findings(ids, loc, field, dup_msg)
    }
}

fn validate_rule_then_unique(
    ids: &Vec<String>,
    location: &str,
    id_field: &str,
    rule: IdRule,
    rule_msg: &str,
    dup_msg: &str,
) -> (r: Result<(), Error>)
    ensures
        reported(r, rule_then_unique(views(ids@), location@, id_field@, rule, rule_msg@, dup_msg@)),
{
    let errors = validate_ids_with_predicate(ids, location, id_field, rule_msg, rule);
    if errors.len() > 0 {
        return check(&errors);
    }
    let errors = validate_ids_uniqueness(ids, location, id_field, dup_msg);
    check(&errors)
}

/// Collects pipe names; they must be lower snake case and unique.
pub struct PipeIdValidator {
    pub location: String,
    pub ids: Vec<String>,
}

impl VisitEntity<Pipe> for PipeIdValidator {
    open spec fn visited(old: Self, new: Self, e: Pipe) -> bool {
        &&& new.location == old.location
        &&& views(new.ids@) == views(old.ids@).push(e.name@)
    }

    fn visit(&mut self, pipe: &Pipe) {
        let ghost v0 = views(self.ids@);
        self.ids.push(pipe.get_id());
        assert(views(self.ids@) =~= v0.push(pipe.name@));
    }
}

impl EntityAccept<PipeIdValidator> for Pipe {}

impl Validate for PipeIdValidator {
    open spec fn is_new(&self, location: Seq<char>) -> bool {
        self.location@ == location && self.ids.len() == 0
    }

    open spec fn findings(&self) -> Seq<(Seq<char>, Seq<char>)> {
        rule_then_unique(
            views(self.ids@),
            self.location@,
            PIPE_ENTITY_ID_FIELD@,
            IdRule::SnakeCase,
            "use snake_case"@,
            "duplicated"@,
        )
    }

    open spec fn inv(&self) -> bool {
        true
    }

    fn new(location: &str) -> (v: Self) {
        PipeIdValidator { location: copy_text(location), ids: Vec::new() }
    }

    fn validate(&mut self) -> (r: Result<(), Error>) {
        validate_rule_then_unique(
            &self.ids,
            self.location.as_str(),
            PIPE_ENTITY_ID_FIELD,
            IdRule::SnakeCase,
            "use snake_case",
            "duplicated",
        )
    }
}

/// The finding about the output of pipe `i`, if any: a sink must have no
/// output, any other pipe must have one.
pub open spec fn output_finding(sink: bool, has_output: bool, loc: Seq<char>, i: int) -> Seq<(Seq<char>, Seq<char>)> {
    if sink && has_output {
        seq![(loc_field(loc, i, PIPE_OUTPUT_FIELD@), "found invalid output for sink pipe"@)]
    } else if !sink && !has_output {
        seq![(loc_field(loc, i, PIPE_OUTPUT_FIELD@), "pipe output not found"@)]
    } else {
        Seq::empty()
    }
}

/// The output findings for pipes with the given sink flags and output flags.
pub open spec fn output_findings(sinks: Seq<bool>, outputs: Seq<bool>, loc: Seq<char>) -> Seq<(Seq<char>, Seq<char>)>
    decreases sinks.len(),
{
    if sinks.len() == 0 {
        Seq::empty()
    } else {
        output_findings(sinks.drop_last(), outputs, loc) + output_finding(
            sinks.last(),
            outputs[sinks.len() - 1],
            loc,
            sinks.len() - 1,
        )
    }
}

/// Collects, for each pipe, whether it is a sink and whether it has an output.
pub struct PipeOutputValidator {
    pub location: String,
    pub sinks: Vec<bool>,
    pub outputs: Vec<bool>,
}

impl VisitEntity<Pipe> for PipeOutputValidator {
    open spec fn visited(old: Self, new: Self, e: Pipe) -> bool {
        &&& new.location == old.location
        &&& new.sinks@ == old.sinks@.push(is_sink_type(e.ty))
        &&& new.outputs@ == old.outputs@.push(e.output is Some)
    }

    fn visit(&mut self, pipe: &Pipe) {
        self.sinks.push(pipe.is_sink());
        self.outputs.push(pipe.has_output());
    }
}

impl EntityAccept<PipeOutputValidator> for Pipe {}

impl Validate for PipeOutputValidator {
    open spec fn is_new(&self, location: Seq<char>) -> bool {
        self.location@ == location && self.sinks.len() == 0 && self.outputs.len() == 0
    }

    open spec fn findings(&self) -> Seq<(Seq<char>, Seq<char>)> {
        output_findings(self.sinks@, self.outputs@, self.location@)
    }

    open spec fn inv(&self) -> bool {
        self.sinks.len() == self.outputs.len()
    }

    fn new(location: &str) -> (v: Self) {
        PipeOutputValidator { location: copy_text(location), sinks: Vec::new(), outputs: Vec::new() }
    }

    fn validate(&mut self) -> (r: Result<(), Error>) {
        let mut errors: Vec<(String, String)> = Vec::new();
        let mut i: usize = 0;
        while i < self.sinks.len()
            invariant
                self.inv(),
                i <= self.sinks.len(),
                findings_view(errors@) == output_findings(self.sinks@.take(i as int), self.outputs@, self.location@),
            decreases self.sinks.len() - i,
        {
            assert(self.sinks@.take(i + 1).drop_last() =~= self.sinks@.take(i as int));
            let ghost e0 = errors@;
            let sink = self.sinks[i];
            let out = self.outputs[i];
            if sink && out {
                let loc = field_location(self.location.as_str(), i, PIPE_OUTPUT_FIELD);
                errors.push((loc, copy_text("found invalid output for sink pipe")));
            } else if !sink && !out {
                let loc = field_location(self.location.as_str(), i, PIPE_OUTPUT_FIELD);
                errors.push((loc, copy_text("pipe output not found")));
            }
            assert(findings_view(errors@) =~= findings_view(e0) + output_finding(sink, out, self.location@, i as int));
            i = i + 1;
        }
        assert(self.sinks@.take(self.sinks.len() as int) =~= self.sinks@);
        check(&errors)
    }
}

/// Collects object types; they must be camel case and unique.
pub struct ObjectIdValidator {
    pub location: String,
    pub ids: Vec<String>,
}

impl VisitEntity<Object> for ObjectIdValidator {
    open spec fn visited(old: Self, new: Self, e: Object) -> bool {
        &&& new.location == old.location
        &&& views(new.ids@) == views(old.ids@).push(e.ty@)
    }

    fn visit(&mut self, object: &Object) {
        let ghost v0 = views(self.ids@);
        self.ids.push(object.get_id());
        assert(views(self.ids@) =~= v0.push(object.ty@));
    }
}

impl EntityAccept<ObjectIdValidator> for Object {}

impl Validate for ObjectIdValidator {
    open spec fn is_new(&self, location: Seq<char>) -> bool {
        self.location@ == location && self.ids.len() == 0
    }

    open spec fn findings(&self) -> Seq<(Seq<char>, Seq<char>)> {
        rule_then_unique(
            views(self.ids@),
            self.location@,
            OBJECT_ENTITY_ID_FIELD@,
            IdRule::CamelCase,
            "use CamelCase"@,
            "duplicated"@,
        )
    }

    open spec fn inv(&self) -> bool {
        true
    }

    fn new(location: &str) -> (v: Self) {
        ObjectIdValidator { location: copy_text(location), ids: Vec::new() }
    }

    fn validate(&mut self) -> (r: Result<(), Error>) {
        validate_rule_then_unique(
            &self.ids,
            self.location.as_str(),
            OBJECT_ENTITY_ID_FIELD,
            IdRule::CamelCase,
            "use CamelCase",
            "duplicated",
        )
    }
}

/// The findings for data field names: empty names if any, else names not in
/// lower snake case if any, else repeated names.
pub open spec fn field_name_findings(ids: Seq<Seq<char>>, loc: Seq<char>) -> Seq<(Seq<char>, Seq<char>)> {
    let empty = predicate_findings(ids, loc, DATA_FIELD_ENTITY_ID_FIELD@, "empty"@, IdRule::NonEmpty);
    if empty.len() > 0 {
        empty
    } else {
        rule_then_unique(ids, loc, DATA_FIELD_ENTITY_ID_FIELD@, IdRule::SnakeCase, "use snake_case"@, "duplicate"@)
    }
}

/// Collects data field names; they must be non-empty, lower snake case and unique.
pub struct DataFieldValidator {
    pub location: String,
    pub ids: Vec<String>,
}

impl VisitEntity<DataField> for DataFieldValidator {
    open spec fn visited(old: Self, new: Self, e: DataField) -> bool {
        &&& new.location == old.location
        &&& views(new.ids@) == views(old.ids@).push(field_name(e))
    }

    fn visit(&mut self, field: &DataField) {
        let ghost v0 = views(self.ids@);
        self.ids.push(field.get_id());
        assert(views(self.ids@) =~= v0.push(field_name(*field)));
    }
}

impl EntityAccept<DataFieldValidator> for DataField {}

impl Validate for DataFieldValidator {
    open spec fn is_new(&self, location: Seq<char>) -> bool {
        self.location@ == location && self.ids.len() == 0
    }

    open spec fn findings(&self) -> Seq<(Seq<char>, Seq<char>)> {
        field_name_findings(views(self.ids@), self.location@)
    }

    open spec fn inv(&self) -> bool {
        true
    }

    fn new(location: &str) -> (v: Self) {
        DataFieldValidator { location: copy_text(location), ids: Vec::new() }
    }

    fn validate(&mut self) -> (r: Result<(), Error>) {
        let errors = validate_ids_with_predicate(
            &self.ids,
            self.location.as_str(),
            DATA_FIELD_ENTITY_ID_FIELD,
            "empty",
            IdRule::NonEmpty,
        );
        if errors.len() > 0 {
            return check(&errors);
        }
        validate_rule_then_unique(
            &self.ids,
            self.location.as_str(),
            DATA_FIELD_ENTITY_ID_FIELD,
            IdRule::SnakeCase,
            "use snake_case",
            "duplicate",
        )
    }
}

/// Collects context store names; they must be lower snake case and unique.
pub struct ContextStoreIdValidator {
    pub location: String,
    pub ids: Vec<String>,
}

impl VisitEntity<ContextStore> for ContextStoreIdValidator {
    open spec fn visited(old: Self, new: Self, e: ContextStore) -> bool {
        &&& new.location == old.location
        &&& views(new.ids@) == views(old.ids@).push(e.name@)
    }

    fn visit(&mut self, cstore: &ContextStore) {
        let ghost v0 = views(self.ids@);
        self.ids.push(cstore.get_id());
        assert(views(self.ids@) =~= v0.push(cstore.name@));
    }
}

impl EntityAccept<ContextStoreIdValidator> for ContextStore {}

impl Validate for ContextStoreIdValidator {
    open spec fn is_new(&self, location: Seq<char>) -> bool {
        self.location@ == location && self.ids.len() == 0
    }

    open spec fn findings(&self) -> Seq<(Seq<char>, Seq<char>)> {
        rule_then_unique(
            views(self.ids@),
            self.location@,
            CONTEXT_STORE_ENTITY_ID_FIELD@,
            IdRule::SnakeCase,
            "use snake_case"@,
            "duplicated"@,
        )
    }

    open spec fn inv(&self) -> bool {
        true
    }

    fn new(location: &str) -> (v: Self) {
        ContextStoreIdValidator { location: copy_text(location), ids: Vec::new() }
    }

    fn validate(&mut self) -> (r: Result<(), Error>) {
        validate_rule_then_unique(
            &self.ids,
            self.location.as_str(),
            CONTEXT_STORE_ENTITY_ID_FIELD,
            IdRule::SnakeCase,
            "use snake_case",
            "duplicated",
        )
    }
}

/// `loc[i].fields[j]`.
pub open spec fn loc_dep(loc: Seq<char>, i: int, j: int) -> Seq<char> {
    loc + "["@ + decimal(i as nat) + "].fields["@ + decimal(j as nat) + "]"@
}

/// The findings for the dependencies `deps` of object `i`: one for each
/// dependency that names no collected object.
pub open spec fn object_dep_findings(ids: Seq<Seq<char>>, deps: Seq<Seq<char>>, loc: Seq<char>, i: int) -> Seq<
    (Seq<char>, Seq<char>),
>
    decreases deps.len(),
{
    if deps.len() == 0 {
        Seq::empty()
    } else {
        let rest = object_dep_findings(ids, deps.drop_last(), loc, i);
        if ids.contains(deps.last()) {
            rest
        } else {
            rest.push((loc_dep(loc, i, deps.len() - 1), "object dependency not found"@))
        }
    }
}

/// The dependency findings of all objects, in order.
pub open spec fn objects_dep_findings(ids: Seq<Seq<char>>, deps: Seq<Seq<Seq<char>>>, loc: Seq<char>, n: int) -> Seq<
    (Seq<char>, Seq<char>),
>
    decreases n,
{
    if n <= 0 {
        Seq::empty()
    } else {
        objects_dep_findings(ids, deps, loc, n - 1) + object_dep_findings(ids, deps[n - 1], loc, n - 1)
    }
}

/// `loc[i].fields[j]` as text.
pub fn dep_location(loc: &str, i: usize, j: usize) -> (r: String)
    ensures
        r@ == loc_dep(loc@, i as int, j as int),
{
    let mut r = String::new();
    r.append(loc);
    r.append("[");
    let d = usize_to_string(i);
    r.append(d.as_str());
    r.append("].fields[");
    let e = usize_to_string(j);
    r.append(e.as_str());
    r.append("]");
    r
}

/// Collects each object's type and the object types its fields use; each
/// used type must be a collected object.
pub struct ObjectDependencyValidator {
    pub location: String,
    pub ids: Vec<String>,
    pub deps: Vec<Vec<String>>,
}

impl VisitEntity<Object> for ObjectDependencyValidator {
    open spec fn visited(old: Self, new: Self, e: Object) -> bool {
        &&& new.location == old.location
        &&& views(new.ids@) == views(old.ids@).push(e.ty@)
        &&& nested_views(new.deps@) == nested_views(old.deps@).push(fields_deps(e.fields@))
    }

    fn visit(&mut self, object: &Object) {
        let ghost v0 = views(self.ids@);
        let ghost d0 = nested_views(self.deps@);
        self.ids.push(object.get_id());
        let dep = object.list_dependency();
        self.deps.push(dep);
        assert(views(self.ids@) =~= v0.push(object.ty@));
        assert(nested_views(self.deps@) =~= d0.push(fields_deps(object.fields@)));
    }
}

impl EntityAccept<ObjectDependencyValidator> for Object {}

impl Validate for ObjectDependencyValidator {
    open spec fn is_new(&self, location: Seq<char>) -> bool {
        self.location@ == location && self.ids.len() == 0 && self.deps.len() == 0
    }

    open spec fn findings(&self) -> Seq<(Seq<char>, Seq<char>)> {
        objects_dep_findings(views(self.ids@), nested_views(self.deps@), self.location@, self.ids.len() as int)
    }

    open spec fn inv(&self) -> bool {
        self.ids.len() == self.deps.len()
    }

    fn new(location: &str) -> (v: Self) {
        ObjectDependencyValidator { location: copy_text(location), ids: Vec::new(), deps: Vec::new() }
    }

    fn validate(&mut self) -> (r: Result<(), Error>) {
        let ghost ids = views(self.ids@);
        let ghost deps = nested_views(self.deps@);
        let mut errors: Vec<(String, String)> = Vec::new();
        let mut i: usize = 0;
        while i < self.ids.len()
            invariant
                self.inv(),
                ids == views(self.ids@),
                deps == nested_views(self.deps@),
                i <= self.ids.len(),
                findings_view(errors@) == objects_dep_findings(ids, deps, self.location@, i as int),
            decreases self.ids.len() - i,
        {
            let ghost e0 = findings_view(errors@);
            let ds = &self.deps[i];
            assert(deps[i as int] == views(ds@));
            let mut j: usize = 0;
            while j < ds.len()
                invariant
                    self.inv(),
                    i < self.ids.len(),
                    ids == views(self.ids@),
                    deps[i as int] == views(ds@),
                    j <= ds.len(),
                    findings_view(errors@) == e0 + object_dep_findings(ids, views(ds@).take(j as int), self.location@, i as int),
                decreases ds.len() - j,
            {
                assert(views(ds@).take(j + 1).drop_last() =~= views(ds@).take(j as int));
                assert(views(ds@).take(j + 1).last() == ds@[j as int]@);
                let ghost before = errors@;
                if !contains_str(&self.ids, ds[j].as_str()) {
                    let loc = dep_location(self.location.as_str(), i, j);
                    errors.push((loc, copy_text("object dependency not found")));
                    assert(findings_view(errors@) =~= findings_view(before).push(
                        (loc_dep(self.location@, i as int, j as int), "object dependency not found"@),
                    ));
                }
                j = j + 1;
            }
            assert(views(ds@).take(ds.len() as int) =~= views(ds@));
            i = i + 1;
        }
        check(&errors)
    }
}

/// A pipe named `x` was added to `g` (it is not only an upstream).
pub open spec fn declared(g: DirectedGraph<usize>, x: Seq<char>) -> bool {
    exists|i: int| 0 <= i < g.ids().len() && g.ids()[i] == x && g.value(i) is Some
}

/// The vertex named `x` has an upstream in `g`.
pub open spec fn has_upstream(g: DirectedGraph<usize>, x: Seq<char>) -> bool {
    exists|u: Seq<char>| #[trigger] g.id_edge(u, x)
}

/// The finding about the upstreams of pipe `i`, named `pid`, if any: a source
/// must have no upstream, any other pipe must have one, and every upstream
/// must be a pipe.
pub open spec fn upstream_finding(g: DirectedGraph<usize>, pid: Seq<char>, source: bool, loc: Seq<char>, i: int) -> Seq<
    (Seq<char>, Seq<char>),
> {
    let l = loc_field(loc, i, PIPE_ENTITY_DEPENDENCY_FIELD@);
    if source {
        if has_upstream(g, pid) {
            seq![(l, "found invalid upstream for source pipe"@)]
        } else {
            Seq::empty()
        }
    } else if !has_upstream(g, pid) {
        seq![(l, "no upstream found for downstream pipe"@)]
    } else if exists|u: Seq<char>| #[trigger] g.id_edge(u, pid) && !declared(g, u) {
        seq![(l, "upstream does not exists"@)]
    } else {
        Seq::empty()
    }
}

/// The upstream findings of the first `n` pipes.
pub open spec fn upstream_findings(
    g: DirectedGraph<usize>,
    index: Seq<Seq<char>>,
    sources: Seq<bool>,
    loc: Seq<char>,
    n: int,
) -> Seq<(Seq<char>, Seq<char>)>
    decreases n,
{
    if n <= 0 {
        Seq::empty()
    } else {
        upstream_findings(g, index, sources, loc, n - 1) + upstream_finding(g, index[n - 1], sources[n - 1], loc, n - 1)
    }
}

/// The position of the first `x` in `s`, or -1.
pub open spec fn pos_of(s: Seq<Seq<char>>, x: Seq<char>) -> int
    decreases s.len(),
{
    if s.len() == 0 {
        -1
    } else if s[0] == x {
        0
    } else {
        let r = pos_of(s.drop_first(), x);
        if r < 0 {
            -1
        } else {
            r + 1
        }
    }
}

proof fn lemma_pos_of(s: Seq<Seq<char>>, x: Seq<char>, j: int)
    requires
        0 <= j <= s.len(),
        forall|k: int| 0 <= k < j ==> s[k] != x,
        j < s.len() ==> s[j] == x,
    ensures
        pos_of(s, x) == if j < s.len() {
            j
        } else {
            -1
        },
    decreases s.len(),
{
    if s.len() > 0 && j > 0 {
        lemma_pos_of(s.drop_first(), x, j - 1);
    }
}

/// The first position of `x` among `s`.
pub fn position(s: &Vec<String>, x: &str) -> (r: Option<usize>)
    ensures
        match r {
            Some(p) => pos_of(views(s@), x@) == p,
            None => pos_of(views(s@), x@) == -1,
        },
{
    let mut j: usize = 0;
    while j < s.len()
        invariant
            j <= s.len(),
            forall|k: int| 0 <= k < j ==> views(s@)[k] != x@,
        decreases s.len() - j,
    {
        if str_eq(s[j].as_str(), x) {
            proof {
                lemma_pos_of(views(s@), x@, j as int);
            }
            return Some(j);
        }
        j = j + 1;
    }
    proof {
        lemma_pos_of(views(s@), x@, s.len() as int);
    }
    None
}

/// A "cycle detected" finding at `loc[p]` for each of `cyc` at position `p`
/// of `index`.
pub open spec fn cycle_findings(cyc: Seq<Seq<char>>, index: Seq<Seq<char>>, loc: Seq<char>) -> Seq<(Seq<char>, Seq<char>)>
    decreases cyc.len(),
{
    if cyc.len() == 0 {
        Seq::empty()
    } else {
        let rest = cycle_findings(cyc.drop_last(), index, loc);
        let p = pos_of(index, cyc.last());
        if p >= 0 {
            rest.push((loc_item(loc, p), "cycle detected"@))
        } else {
            rest
        }
    }
}

/// The pipe graph findings: the upstream findings if any, else a finding for
/// each pipe on or downstream of a cycle.
pub open spec fn graph_findings(g: DirectedGraph<usize>, index: Seq<Seq<char>>, sources: Seq<bool>, loc: Seq<char>) -> Seq<
    (Seq<char>, Seq<char>),
> {
    let up = upstream_findings(g, index, sources, loc, index.len() as int);
    if up.len() > 0 {
        up
    } else {
        cycle_findings(pick(g.ids(), |i: int| g.unpeelable(i)), index, loc)
    }
}

/// Adding `pipe` with `value` turns `g0` into `g1` (see `PipeGraph::add_pipe`).
pub open spec fn graph_step(g0: DirectedGraph<usize>, g1: DirectedGraph<usize>, pipe: Pipe, value: usize) -> bool {
    &&& g1.wf()
    &&& g1.ids() == with_ids(g0.ids(), seq![pipe.name@] + pipe_upstreams(pipe))
    &&& forall|i: int, j: int| #[trigger] g1.edge(i, j) == (g0.edge(i, j) || (0 <= i < g1.ids().len() && 0 <= j < g1.ids().len()
        && g1.ids()[j] == pipe.name@ && pipe_upstreams(pipe).contains(g1.ids()[i])))
    &&& forall|i: int| 0 <= i < g1.ids().len() ==> #[trigger] g1.value(i) == if g1.ids()[i] == pipe.name@ {
        Some(value)
    } else if i < g0.ids().len() {
        g0.value(i)
    } else {
        None
    }
}

/// Collects the pipe graph, each pipe's name in visiting order and whether
/// it is a source; a pipe's vertex holds its position.
pub struct PipeGraphValidator {
    pub location: String,
    pub graph: PipeGraph<usize>,
    pub index: Vec<String>,
    pub sources: Vec<bool>,
}

impl VisitEntity<Pipe> for PipeGraphValidator {
    open spec fn visited(old: Self, new: Self, e: Pipe) -> bool {
        &&& new.location == old.location
        &&& views(new.index@) == views(old.index@).push(e.name@)
        &&& new.sources@ == old.sources@.push(is_source_type(e.ty))
        &&& graph_step(old.graph.dg(), new.graph.dg(), e, old.index.len())
    }

    fn visit(&mut self, pipe: &Pipe) {
        let ghost v0 = views(self.index@);
        let pos = self.index.len();
        self.graph.add_pipe(pipe, pos);
        self.index.push(pipe.get_id());
        self.sources.push(pipe.is_source());
        assert(views(self.index@) =~= v0.push(pipe.name@));
    }
}

impl EntityAccept<PipeGraphValidator> for Pipe {}

impl Validate for PipeGraphValidator {
    open spec fn is_new(&self, location: Seq<char>) -> bool {
        &&& self.location@ == location
        &&& self.index.len() == 0
        &&& self.sources.len() == 0
        &&& self.graph.dg().ids().len() == 0
    }

    open spec fn findings(&self) -> Seq<(Seq<char>, Seq<char>)> {
        graph_findings(self.graph.dg(), views(self.index@), self.sources@, self.location@)
    }

    open spec fn inv(&self) -> bool {
        self.sources.len() == self.index.len()
    }

    fn new(location: &str) -> (v: Self) {
        PipeGraphValidator { location: copy_text(location), graph: PipeGraph::new(), index: Vec::new(), sources: Vec::new() }
    }

    fn validate(&mut self) -> (r: Result<(), Error>) {
        self.graph.check_wf();
        let ghost g = self.graph.dg();
        let ghost index = views(self.index@);
        let mut errors: Vec<(String, String)> = Vec::new();
        let mut i: usize = 0;
        while i < self.index.len()
            invariant
                self.inv(),
                g == self.graph.dg(),
                index == views(self.index@),
                i <= self.index.len(),
                findings_view(errors@) == upstream_findings(g, index, self.sources@, self.location@, i as int),
            decreases self.index.len() - i,
        {
            let ghost e0 = findings_view(errors@);
            let pid = self.index[i].as_str();
            let src = self.sources[i];
            let has_up = self.graph.has_upstream_pipe(pid);
            if src {
                if has_up {
                    let loc = field_location(self.location.as_str(), i, PIPE_ENTITY_DEPENDENCY_FIELD);
                    errors.push((loc, copy_text("found invalid upstream for source pipe")));
                }
            } else if !has_up {
                let loc = field_location(self.location.as_str(), i, PIPE_ENTITY_DEPENDENCY_FIELD);
                errors.push((loc, copy_text("no upstream found for downstream pipe")));
            } else {
                let ups = self.graph.get_upstream_pipes(pid);
                let mut missing = false;
                let mut k: usize = 0;
                while k < ups.len()
                    invariant
                        self.inv(),
                        g == self.graph.dg(),
                        k <= ups.len(),
                        missing == exists|m: int| 0 <= m < k && !declared(g, ups@[m]@),
                    decreases ups.len() - k,
                {
                    if !self.graph.has_pipe(ups[k].as_str()) {
                        missing = true;
                    }
                    k = k + 1;
                }
                proof {
                    if missing {
                        let m = choose|m: int| 0 <= m < ups.len() && !declared(g, ups@[m]@);
                        assert(views(ups@)[m] == ups@[m]@);
                        assert(views(ups@).contains(ups@[m]@));
                        assert(g.id_edge(ups@[m]@, pid@));
                    } else {
                        assert forall|u: Seq<char>| #[trigger] g.id_edge(u, pid@) implies declared(g, u) by {
                            assert(views(ups@).contains(u));
                            let m = choose|m: int| 0 <= m < views(ups@).len() && views(ups@)[m] == u;
                            assert(ups@[m]@ == u);
                        }
                    }
                }
                if missing {
                    let loc = field_location(self.location.as_str(), i, PIPE_ENTITY_DEPENDENCY_FIELD);
                    errors.push((loc, copy_text("upstream does not exists")));
                }
            }
            assert(findings_view(errors@) =~= e0 + upstream_finding(g, index[i as int], self.sources@[i as int], self.location@, i as int));
            i = i + 1;
        }
        if errors.len() > 0 {
            return check(&errors);
        }
        let cyc = self.graph.find_cycle();
        let ghost cv = views(cyc@);
        let mut c: usize = 0;
        while c < cyc.len()
            invariant
                self.inv(),
                g == self.graph.dg(),
                index == views(self.index@),
                cv == views(cyc@),
                c <= cyc.len(),
                findings_view(errors@) == cycle_findings(cv.take(c as int), index, self.location@),
            decreases cyc.len() - c,
        {
            assert(cv.take(c + 1).drop_last() =~= cv.take(c as int));
            assert(cv.take(c + 1).last() == cyc@[c as int]@);
            let ghost e0 = errors@;
            match position(&self.index, cyc[c].as_str()) {
                Some(p) => {
                    let loc = item_location(self.location.as_str(), p);
                    errors.push((loc, copy_text("cycle detected")));
                    assert(findings_view(errors@) =~= findings_view(e0).push((loc_item(self.location@, p as int), "cycle detected"@)));
                },
                None => {},
            }
            c = c + 1;
        }
        assert(cv.take(cyc.len() as int) =~= cv);
        check(&errors)
    }
}

/// The vertex names of the graph of `ps`: each pipe's name, then the
/// upstreams it names, each the first time it comes.
pub open spec fn pipes_vertex_ids(ps: Seq<Pipe>) -> Seq<Seq<char>>
    decreases ps.len(),
{
    if ps.len() == 0 {
        Seq::empty()
    } else {
        with_ids(pipes_vertex_ids(ps.drop_last()), seq![ps.last().name@] + pipe_upstreams(ps.last()))
    }
}

/// Some pipe of `ps` named `y` names `x` as an upstream.
pub open spec fn pipes_edge(ps: Seq<Pipe>, x: Seq<char>, y: Seq<char>) -> bool {
    exists|k: int| 0 <= k < ps.len() && (#[trigger] ps[k]).name@ == y && pipe_upstreams(ps[k]).contains(x)
}

/// The position of the last pipe of `ps` named `x`.
pub open spec fn last_pipe(ps: Seq<Pipe>, x: Seq<char>) -> Option<usize>
    decreases ps.len(),
{
    if ps.len() == 0 {
        None
    } else if ps.last().name@ == x {
        Some((ps.len() - 1) as usize)
    } else {
        last_pipe(ps.drop_last(), x)
    }
}

/// `g` is the graph of `ps`, each pipe's vertex holding the position of the
/// last pipe of that name.
pub open spec fn graph_of_pipes(g: DirectedGraph<usize>, ps: Seq<Pipe>) -> bool {
    &&& g.wf()
    &&& g.ids() == pipes_vertex_ids(ps)
    &&& forall|i: int, j: int|
        0 <= i < g.ids().len() && 0 <= j < g.ids().len() ==> #[trigger] g.edge(i, j) == pipes_edge(ps, g.ids()[i], g.ids()[j])
    &&& forall|i: int| 0 <= i < g.ids().len() ==> #[trigger] g.value(i) == last_pipe(ps, g.ids()[i])
}

proof fn lemma_with_ids(ids: Seq<Seq<char>>, more: Seq<Seq<char>>)
    ensures
        with_ids(ids, more).len() >= ids.len(),
        forall|i: int| 0 <= i < ids.len() ==> #[trigger] with_ids(ids, more)[i] == ids[i],
        forall|x: Seq<char>| #[trigger] with_ids(ids, more).contains(x) <==> (ids.contains(x) || more.contains(x)),
    decreases more.len(),
{
    if more.len() > 0 {
        lemma_with_ids(ids, more.drop_last());
        let base = with_ids(ids, more.drop_last());
        assert forall|x: Seq<char>| #[trigger] with_ids(ids, more).contains(x) <==> (ids.contains(x) || more.contains(x)) by {
            lemma_push_contains_ids(base, more.last(), x);
            lemma_push_contains_ids(more.drop_last(), more.last(), x);
            assert(more.drop_last().push(more.last()) =~= more);
        }
    }
}

/// The graph of `pipes`: a vertex for each pipe and each upstream named, an
/// edge from each upstream to its pipe, each pipe's vertex holding the
/// position of the last pipe of that name. It is a witness for the contracts
/// that speak of every graph of the pipes.
pub fn pipes_graph(pipes: &Vec<Pipe>) -> (g: PipeGraph<usize>)
    ensures
        graph_of_pipes(g.dg(), pipes@),
{
    let ghost ps = pipes@;
    let mut g: PipeGraph<usize> = PipeGraph::new();
    assert(pipes_vertex_ids(ps.take(0)) =~= g.dg().ids());
    let mut i: usize = 0;
    while i < pipes.len()
        invariant
            i <= pipes.len(),
            ps == pipes@,
            graph_of_pipes(g.dg(), ps.take(i as int)),
        decreases pipes.len() - i,
    {
        let ghost g0 = g.dg();
        g.add_pipe(&pipes[i], i);
        proof {
            assert(ps.take(i + 1) =~= ps.take(i as int).push(ps[i as int]));
            lemma_graph_of_pipes_step(g0, g.dg(), ps.take(i as int), ps[i as int]);
        }
        i = i + 1;
    }
    assert(ps.take(pipes.len() as int) =~= ps);
    g
}

/// The vertices of the graph of `ps` are the pipe names and the upstreams they name.
pub proof fn lemma_pipes_vertex_ids(ps: Seq<Pipe>)
    ensures
        forall|x: Seq<char>| #[trigger] pipes_vertex_ids(ps).contains(x) <==> exists|k: int|
            0 <= k < ps.len() && ((#[trigger] ps[k]).name@ == x || pipe_upstreams(ps[k]).contains(x)),
    decreases ps.len(),
{
    if ps.len() > 0 {
        lemma_pipes_vertex_ids(ps.drop_last());
        let more = seq![ps.last().name@] + pipe_upstreams(ps.last());
        lemma_with_ids(pipes_vertex_ids(ps.drop_last()), more);
        assert forall|x: Seq<char>| #[trigger] pipes_vertex_ids(ps).contains(x) <==> exists|k: int|
            0 <= k < ps.len() && ((#[trigger] ps[k]).name@ == x || pipe_upstreams(ps[k]).contains(x)) by {
            if more.contains(x) {
                let m = choose|m: int| 0 <= m < more.len() && more[m] == x;
                if m == 0 {
                    assert(ps[ps.len() - 1].name@ == x);
                } else {
                    assert(pipe_upstreams(ps.last())[m - 1] == x);
                    assert(pipe_upstreams(ps[ps.len() - 1]).contains(x));
                }
            }
            if exists|k: int| 0 <= k < ps.len() && ((#[trigger] ps[k]).name@ == x || pipe_upstreams(ps[k]).contains(x)) {
                let k = choose|k: int| 0 <= k < ps.len() && ((#[trigger] ps[k]).name@ == x || pipe_upstreams(ps[k]).contains(x));
                if k == ps.len() - 1 {
                    if ps[k].name@ == x {
                        assert(more[0] == x);
                    } else {
                        let m = choose|m: int| 0 <= m < pipe_upstreams(ps[k]).len() && pipe_upstreams(ps[k])[m] == x;
                        assert(more[m + 1] == x);
                    }
                } else {
                    assert(ps.drop_last()[k] == ps[k]);
                }
            }
        }
    }
}

/// The last pipe of a name lies within the pipes.
pub proof fn lemma_last_pipe_bound(ps: Seq<Pipe>, x: Seq<char>)
    requires
        ps.len() <= usize::MAX,
    ensures
        match last_pipe(ps, x) {
            Some(k) => k < ps.len(),
            None => true,
        },
{
    lemma_last_pipe(ps, x);
}

/// The last pipe named `x` is named `x`; when there is none, no pipe is.
pub proof fn lemma_last_pipe(ps: Seq<Pipe>, x: Seq<char>)
    requires
        ps.len() <= usize::MAX,
    ensures
        match last_pipe(ps, x) {
            Some(k) => k < ps.len() && ps[k as int].name@ == x,
            None => forall|k: int| 0 <= k < ps.len() ==> (#[trigger] ps[k]).name@ != x,
        },
    decreases ps.len(),
{
    if ps.len() > 0 {
        lemma_last_pipe(ps.drop_last(), x);
        if ps.last().name@ != x {
            match last_pipe(ps.drop_last(), x) {
                Some(k) => {
                    assert(ps.drop_last()[k as int] == ps[k as int]);
                },
                None => {
                    assert forall|k: int| 0 <= k < ps.len() implies (#[trigger] ps[k]).name@ != x by {
                        if k < ps.len() - 1 {
                            assert(ps.drop_last()[k] == ps[k]);
                        }
                    }
                },
            }
        }
    }
}

/// Adding one more pipe to the graph of `ps` gives the graph of `ps` with
/// that pipe appended.
pub proof fn lemma_graph_of_pipes_step(g0: DirectedGraph<usize>, g1: DirectedGraph<usize>, ps: Seq<Pipe>, p: Pipe)
    requires
        graph_of_pipes(g0, ps),
        ps.len() < usize::MAX,
        graph_step(g0, g1, p, ps.len() as usize),
    ensures
        graph_of_pipes(g1, ps.push(p)),
{
    let qs = ps.push(p);
    assert(qs.drop_last() =~= ps);
    let more = seq![p.name@] + pipe_upstreams(p);
    lemma_with_ids(g0.ids(), more);
    lemma_pipes_vertex_ids(ps);
    assert forall|i: int, j: int| 0 <= i < g1.ids().len() && 0 <= j < g1.ids().len() implies #[trigger] g1.edge(i, j)
        == pipes_edge(qs, g1.ids()[i], g1.ids()[j]) by {
        let x = g1.ids()[i];
        let y = g1.ids()[j];
        if pipes_edge(qs, x, y) {
            let k = choose|k: int| 0 <= k < qs.len() && (#[trigger] qs[k]).name@ == y && pipe_upstreams(qs[k]).contains(x);
            if k < ps.len() {
                assert(qs[k] == ps[k]);
                assert(pipes_edge(ps, x, y));
                assert(pipes_vertex_ids(ps).contains(x));
                assert(pipes_vertex_ids(ps).contains(y));
                let i0 = choose|i0: int| 0 <= i0 < g0.ids().len() && g0.ids()[i0] == x;
                let j0 = choose|j0: int| 0 <= j0 < g0.ids().len() && g0.ids()[j0] == y;
                assert(g1.ids()[i0] == x && g1.ids()[j0] == y);
                g1.lemma_ids_distinct(i0, i);
                g1.lemma_ids_distinct(j0, j);
                assert(g0.edge(i, j));
            }
        }
        if g0.edge(i, j) {
            g0.lemma_edge_in_range(i, j);
            assert(g0.ids()[i] == x && g0.ids()[j] == y);
            assert(pipes_edge(ps, x, y));
            let k = choose|k: int| 0 <= k < ps.len() && (#[trigger] ps[k]).name@ == y && pipe_upstreams(ps[k]).contains(x);
            assert(qs[k] == ps[k]);
        }
        if y == p.name@ && pipe_upstreams(p).contains(x) {
            assert(qs[ps.len() as int] == p);
        }
    }
    assert forall|i: int| 0 <= i < g1.ids().len() implies #[trigger] g1.value(i) == last_pipe(qs, g1.ids()[i]) by {
        let x = g1.ids()[i];
        if x != p.name@ {
            if i < g0.ids().len() {
                assert(g0.ids()[i] == x);
            } else {
                lemma_last_pipe(ps, x);
                if last_pipe(ps, x) is Some {
                    let k = last_pipe(ps, x).unwrap();
                    assert(pipes_vertex_ids(ps).contains(x)) by {
                        assert(0 <= k < ps.len() && ((ps[k as int]).name@ == x || pipe_upstreams(ps[k as int]).contains(x)));
                    }
                    let i0 = choose|i0: int| 0 <= i0 < g0.ids().len() && g0.ids()[i0] == x;
                    assert(g1.ids()[i0] == x);
                    g1.lemma_ids_distinct(i0, i);
                }
            }
        }
    }
}

/// The pipe names of `ps`.
pub open spec fn pipe_names(ps: Seq<Pipe>) -> Seq<Seq<char>> {
    ps.map_values(|p: Pipe| p.name@)
}

/// Which pipes of `ps` are sinks.
pub open spec fn pipe_sinks(ps: Seq<Pipe>) -> Seq<bool> {
    ps.map_values(|p: Pipe| is_sink_type(p.ty))
}

/// Which pipes of `ps` are sources.
pub open spec fn pipe_sources(ps: Seq<Pipe>) -> Seq<bool> {
    ps.map_values(|p: Pipe| is_source_type(p.ty))
}

/// Which pipes of `ps` have an output.
pub open spec fn pipe_outputs(ps: Seq<Pipe>) -> Seq<bool> {
    ps.map_values(|p: Pipe| p.output is Some)
}

/// The findings for the pipes `ps` at `pipes`, given their graph `g`: bad or
/// repeated names if any, else output findings if any, else graph findings.
pub open spec fn pipes_findings(ps: Seq<Pipe>, g: DirectedGraph<usize>) -> Seq<(Seq<char>, Seq<char>)> {
    let idf = rule_then_unique(pipe_names(ps), "pipes"@, PIPE_ENTITY_ID_FIELD@, IdRule::SnakeCase, "use snake_case"@, "duplicated"@);
    if idf.len() > 0 {
        idf
    } else {
        let of = output_findings(pipe_sinks(ps), pipe_outputs(ps), "pipes"@);
        if of.len() > 0 {
            of
        } else {
            graph_findings(g, pipe_names(ps), pipe_sources(ps), "pipes"@)
        }
    }
}

/// The object types of `os`.
pub open spec fn object_tys(os: Seq<Object>) -> Seq<Seq<char>> {
    os.map_values(|o: Object| o.ty@)
}

/// The object types each object of `os` uses.
pub open spec fn object_deps(os: Seq<Object>) -> Seq<Seq<Seq<char>>> {
    os.map_values(|o: Object| fields_deps(o.fields@))
}

/// The names of the data fields `fs`.
pub open spec fn field_names(fs: Seq<DataField>) -> Seq<Seq<char>> {
    fs.map_values(|f: DataField| field_name(f))
}

/// `objects[i].fields`.
pub open spec fn loc_fields(i: int) -> Seq<char> {
    loc_item("objects"@, i) + ".fields"@
}

/// The field findings of the first object among the first `n` that has any.
pub open spec fn fields_findings(os: Seq<Object>, n: int) -> Seq<(Seq<char>, Seq<char>)>
    decreases n,
{
    if n <= 0 {
        Seq::empty()
    } else {
        let prev = fields_findings(os, n - 1);
        if prev.len() > 0 {
            prev
        } else {
            field_name_findings(field_names(os[n - 1].fields@), loc_fields(n - 1))
        }
    }
}

proof fn lemma_fields_findings_stable(os: Seq<Object>, a: int, b: int)
    requires
        0 <= a <= b,
        fields_findings(os, a).len() > 0,
    ensures
        fields_findings(os, b) == fields_findings(os, a),
    decreases b - a,
{
    if b > a {
        lemma_fields_findings_stable(os, a, b - 1);
    }
}

/// The findings for the objects `os` at `objects`: bad or repeated types if
/// any, else field findings if any, else dependency findings.
pub open spec fn objects_findings(os: Seq<Object>) -> Seq<(Seq<char>, Seq<char>)> {
    let idf = rule_then_unique(object_tys(os), "objects"@, OBJECT_ENTITY_ID_FIELD@, IdRule::CamelCase, "use CamelCase"@, "duplicated"@);
    if idf.len() > 0 {
        idf
    } else {
        let ff = fields_findings(os, os.len() as int);
        if ff.len() > 0 {
            ff
        } else {
            objects_dep_findings(object_tys(os), object_deps(os), "objects"@, os.len() as int)
        }
    }
}

/// The names of the context stores `cs`.
pub open spec fn cstore_names(cs: Seq<ContextStore>) -> Seq<Seq<char>> {
    cs.map_values(|c: ContextStore| c.name@)
}

/// The findings for the context stores `cs` at `cstores`.
pub open spec fn cstores_findings(cs: Seq<ContextStore>) -> Seq<(Seq<char>, Seq<char>)> {
    rule_then_unique(cstore_names(cs), "cstores"@, CONTEXT_STORE_ENTITY_ID_FIELD@, IdRule::SnakeCase, "use snake_case"@, "duplicated"@)
}

/// The findings for an application, given the graph `g` of its pipes: those
/// of the pipes if any, else of the objects if any, else of the context stores.
pub open spec fn app_findings(a: App, g: DirectedGraph<usize>) -> Seq<(Seq<char>, Seq<char>)> {
    let pf = pipes_findings(a.pipes@, g);
    if pf.len() > 0 {
        pf
    } else {
        let of = objects_findings(a.objects.unwrap()@);
        if of.len() > 0 {
            of
        } else {
            cstores_findings(a.cstores.unwrap()@)
        }
    }
}

/// Two graphs of the same pipes have the same vertices, edges and values.
pub proof fn lemma_graph_of_pipes_same(g1: DirectedGraph<usize>, g2: DirectedGraph<usize>, ps: Seq<Pipe>)
    requires
        graph_of_pipes(g1, ps),
        graph_of_pipes(g2, ps),
    ensures
        g1.ids() == g2.ids(),
        forall|i: int, j: int| #[trigger] g1.edge(i, j) == g2.edge(i, j),
        forall|i: int| 0 <= i < g1.ids().len() ==> #[trigger] g1.value(i) == g2.value(i),
        forall|x: Seq<char>| #[trigger] g1.value_of(x) == g2.value_of(x),
{
    assert forall|i: int, j: int| #[trigger] g1.edge(i, j) == g2.edge(i, j) by {
        if g1.edge(i, j) {
            g1.lemma_edge_in_range(i, j);
        }
        if g2.edge(i, j) {
            g2.lemma_edge_in_range(i, j);
        }
    }
}

/// Graphs of the same pipes give the same graph findings.
pub proof fn lemma_graph_findings_unique(
    g1: DirectedGraph<usize>,
    g2: DirectedGraph<usize>,
    ps: Seq<Pipe>,
    index: Seq<Seq<char>>,
    sources: Seq<bool>,
    loc: Seq<char>,
)
    requires
        graph_of_pipes(g1, ps),
        graph_of_pipes(g2, ps),
    ensures
        graph_findings(g1, index, sources, loc) == graph_findings(g2, index, sources, loc),
{
    assert forall|i: int, j: int| #[trigger] g1.edge(i, j) == g2.edge(i, j) by {
        if g1.edge(i, j) {
            g1.lemma_edge_in_range(i, j);
        }
        if g2.edge(i, j) {
            g2.lemma_edge_in_range(i, j);
        }
    }
    g1.lemma_same_shape(&g2);
    assert forall|x: Seq<char>| #[trigger] declared(g1, x) == declared(g2, x) by {}
    assert forall|x: Seq<char>| #[trigger] has_upstream(g1, x) == has_upstream(g2, x) by {
        if has_upstream(g1, x) {
            let u = choose|u: Seq<char>| #[trigger] g1.id_edge(u, x);
            assert(g2.id_edge(u, x));
        }
        if has_upstream(g2, x) {
            let u = choose|u: Seq<char>| #[trigger] g2.id_edge(u, x);
            assert(g1.id_edge(u, x));
        }
    }
    lemma_upstream_findings_unique(g1, g2, index, sources, loc, index.len() as int);
    assert((|i: int| g1.unpeelable(i)) =~= (|i: int| g2.unpeelable(i)));
}

proof fn lemma_upstream_findings_unique(
    g1: DirectedGraph<usize>,
    g2: DirectedGraph<usize>,
    index: Seq<Seq<char>>,
    sources: Seq<bool>,
    loc: Seq<char>,
    n: int,
)
    requires
        forall|x: Seq<char>, y: Seq<char>| #[trigger] g1.id_edge(x, y) == g2.id_edge(x, y),
        forall|x: Seq<char>| #[trigger] declared(g1, x) == declared(g2, x),
        forall|x: Seq<char>| #[trigger] has_upstream(g1, x) == has_upstream(g2, x),
    ensures
        upstream_findings(g1, index, sources, loc, n) == upstream_findings(g2, index, sources, loc, n),
    decreases n,
{
    if n > 0 {
        lemma_upstream_findings_unique(g1, g2, index, sources, loc, n - 1);
        let pid = index[n - 1];
        assert((exists|u: Seq<char>| #[trigger] g1.id_edge(u, pid) && !declared(g1, u)) == (exists|u: Seq<char>|
            #[trigger] g2.id_edge(u, pid) && !declared(g2, u))) by {
            if exists|u: Seq<char>| #[trigger] g1.id_edge(u, pid) && !declared(g1, u) {
                let u = choose|u: Seq<char>| #[trigger] g1.id_edge(u, pid) && !declared(g1, u);
                assert(g2.id_edge(u, pid) && !declared(g2, u));
            }
            if exists|u: Seq<char>| #[trigger] g2.id_edge(u, pid) && !declared(g2, u) {
                let u = choose|u: Seq<char>| #[trigger] g2.id_edge(u, pid) && !declared(g2, u);
                assert(g1.id_edge(u, pid) && !declared(g1, u));
            }
        }
    }
}

/// Validates a whole application: its pipes, then its objects, then its
/// context stores.
pub struct AppValidator {
    pub location: String,
}

impl AppValidator {
    /// A validator for `location`.
    pub fn new(location: &str) -> (r: Self)
        ensures
            r.location@ == location@,
    {
        AppValidator { location: copy_text(location) }
    }

    /// Validates the pipes: names, then outputs, then the pipe graph.
    pub fn validate_pipes(&self, app: &App) -> (r: Result<(), Error>)
        ensures
            forall|g: DirectedGraph<usize>| graph_of_pipes(g, app.pipes@) ==> reported(r, #[trigger] pipes_findings(app.pipes@, g)),
    {
        let pipes = app.get_pipes();
        let ghost ps = pipes@;
        let mut v1 = PipeIdValidator::new("pipes");
        let mut i: usize = 0;
        while i < pipes.len()
            invariant
                i <= pipes.len(),
                ps == pipes@,
                v1.location@ == "pipes"@,
                views(v1.ids@) == pipe_names(ps.take(i as int)),
            decreases pipes.len() - i,
        {
            pipes[i].accept_entity_visitor(&mut v1);
            assert(pipe_names(ps.take(i + 1)) =~= pipe_names(ps.take(i as int)).push(ps[i as int].name@));
            i = i + 1;
        }
        assert(ps.take(pipes.len() as int) =~= ps);
        match v1.validate() {
            Err(e) => {
                return Err(e);
            },
            Ok(_) => {},
        }
        let mut v2 = PipeOutputValidator::new("pipes");
        let mut i: usize = 0;
        while i < pipes.len()
            invariant
                i <= pipes.len(),
                ps == pipes@,
                v2.location@ == "pipes"@,
                v2.sinks@ == pipe_sinks(ps.take(i as int)),
                v2.outputs@ == pipe_outputs(ps.take(i as int)),
            decreases pipes.len() - i,
        {
            pipes[i].accept_entity_visitor(&mut v2);
            assert(pipe_sinks(ps.take(i + 1)) =~= pipe_sinks(ps.take(i as int)).push(is_sink_type(ps[i as int].ty)));
            assert(pipe_outputs(ps.take(i + 1)) =~= pipe_outputs(ps.take(i as int)).push(ps[i as int].output is Some));
            i = i + 1;
        }
        assert(ps.take(pipes.len() as int) =~= ps);
        proof {
            assert(output_findings(v2.sinks@, v2.outputs@, "pipes"@) == output_findings(pipe_sinks(ps), pipe_outputs(ps), "pipes"@));
        }
        match v2.validate() {
            Err(e) => {
                return Err(e);
            },
            Ok(_) => {},
        }
        let mut v3 = PipeGraphValidator::new("pipes");
        v3.graph.check_wf();
        proof {
            assert(pipes_vertex_ids(ps.take(0)) =~= v3.graph.dg().ids());
            assert(pipe_names(ps.take(0)) =~= views(v3.index@));
            assert(pipe_sources(ps.take(0)) =~= v3.sources@);
        }
        let mut i: usize = 0;
        while i < pipes.len()
            invariant
                i <= pipes.len(),
                ps == pipes@,
                v3.location@ == "pipes"@,
                views(v3.index@) == pipe_names(ps.take(i as int)),
                v3.sources@ == pipe_sources(ps.take(i as int)),
                v3.index.len() == i,
                graph_of_pipes(v3.graph.dg(), ps.take(i as int)),
            decreases pipes.len() - i,
        {
            let ghost g0 = v3.graph.dg();
            pipes[i].accept_entity_visitor(&mut v3);
            proof {
                assert(ps.take(i + 1) =~= ps.take(i as int).push(ps[i as int]));
                lemma_graph_of_pipes_step(g0, v3.graph.dg(), ps.take(i as int), ps[i as int]);
                assert(pipe_names(ps.take(i + 1)) =~= pipe_names(ps.take(i as int)).push(ps[i as int].name@));
                assert(pipe_sources(ps.take(i + 1)) =~= pipe_sources(ps.take(i as int)).push(is_source_type(ps[i as int].ty)));
            }
            i = i + 1;
        }
        assert(ps.take(pipes.len() as int) =~= ps);
        let r = v3.validate();
        proof {
            assert forall|g: DirectedGraph<usize>| graph_of_pipes(g, app.pipes@) implies reported(r, #[trigger] pipes_findings(app.pipes@, g)) by {
                lemma_graph_findings_unique(g, v3.graph.dg(), ps, pipe_names(ps), pipe_sources(ps), "pipes"@);
            }
        }
        r
    }

    /// Validates the objects: types, then each object's fields, then the
    /// object types the fields use.
    pub fn validate_objects(&self, app: &App) -> (r: Result<(), Error>)
        requires
            app.objects is Some,
        ensures
            reported(r, objects_findings(app.objects.unwrap()@)),
    {
        let objects = app.get_objects();
        let ghost os = objects@;
        let mut v1 = ObjectIdValidator::new("objects");
        let mut i: usize = 0;
        while i < objects.len()
            invariant
                i <= objects.len(),
                os == objects@,
                v1.location@ == "objects"@,
                views(v1.ids@) == object_tys(os.take(i as int)),
            decreases objects.len() - i,
        {
            objects[i].accept_entity_visitor(&mut v1);
            assert(object_tys(os.take(i + 1)) =~= object_tys(os.take(i as int)).push(os[i as int].ty@));
            i = i + 1;
        }
        assert(os.take(objects.len() as int) =~= os);
        match v1.validate() {
            Err(e) => {
                return Err(e);
            },
            Ok(_) => {},
        }
        let mut i: usize = 0;
        while i < objects.len()
            invariant
                i <= objects.len(),
                os == objects@,
                os == app.objects.unwrap()@,
                rule_then_unique(object_tys(os), "objects"@, OBJECT_ENTITY_ID_FIELD@, IdRule::CamelCase, "use CamelCase"@, "duplicated"@).len() == 0,
                fields_findings(os, i as int).len() == 0,
            decreases objects.len() - i,
        {
            let fields = objects[i].get_fields();
            let loc0 = item_location("objects", i);
            let mut loc = String::new();
            loc.append(loc0.as_str());
            loc.append(".fields");
            let mut fv = DataFieldValidator::new(loc.as_str());
            let ghost fs = fields@;
            let mut j: usize = 0;
            while j < fields.len()
                invariant
                    j <= fields.len(),
                    fs == fields@,
                    fv.location@ == loc_fields(i as int),
                    views(fv.ids@) == field_names(fs.take(j as int)),
                decreases fields.len() - j,
            {
                fields[j].accept_entity_visitor(&mut fv);
                assert(field_names(fs.take(j + 1)) =~= field_names(fs.take(j as int)).push(field_name(fs[j as int])));
                j = j + 1;
            }
            assert(fs.take(fields.len() as int) =~= fs);
            assert(fs == os[i as int].fields@);
            assert(fv.findings() == field_name_findings(field_names(os[i as int].fields@), loc_fields(i as int)));
            match fv.validate() {
                Err(e) => {
                    proof {
                        assert(fields_findings(os, i + 1) == fv.findings());
                        lemma_fields_findings_stable(os, i + 1, os.len() as int);
                    }
                    return Err(e);
                },
                Ok(_) => {},
            }
            i = i + 1;
        }
        let mut v3 = ObjectDependencyValidator::new("objects");
        let mut i: usize = 0;
        while i < objects.len()
            invariant
                i <= objects.len(),
                os == objects@,
                v3.location@ == "objects"@,
                views(v3.ids@) == object_tys(os.take(i as int)),
                nested_views(v3.deps@) == object_deps(os.take(i as int)),
                v3.ids.len() == i,
                v3.deps.len() == i,
            decreases objects.len() - i,
        {
            objects[i].accept_entity_visitor(&mut v3);
            assert(object_tys(os.take(i + 1)) =~= object_tys(os.take(i as int)).push(os[i as int].ty@));
            assert(object_deps(os.take(i + 1)) =~= object_deps(os.take(i as int)).push(fields_deps(os[i as int].fields@)));
            i = i + 1;
        }
        assert(os.take(objects.len() as int) =~= os);
        v3.validate()
    }

    /// Validates the context store names.
    pub fn validate_cstores(&self, app: &App) -> (r: Result<(), Error>)
        requires
            app.cstores is Some,
        ensures
            reported(r, cstores_findings(app.cstores.unwrap()@)),
    {
        let cstores = app.get_context_stores();
        let ghost cs = cstores@;
        let mut v = ContextStoreIdValidator::new("cstores");
        let mut i: usize = 0;
        while i < cstores.len()
            invariant
                i <= cstores.len(),
                cs == cstores@,
                v.location@ == "cstores"@,
                views(v.ids@) == cstore_names(cs.take(i as int)),
            decreases cstores.len() - i,
        {
            cstores[i].accept_entity_visitor(&mut v);
            assert(cstore_names(cs.take(i + 1)) =~= cstore_names(cs.take(i as int)).push(cs[i as int].name@));
            i = i + 1;
        }
        assert(cs.take(cstores.len() as int) =~= cs);
        v.validate()
    }

    /// Validates the pipes, then the objects, then the context stores.
    pub fn validate(&self, app: &App) -> (r: Result<(), Error>)
        requires
            app.objects is Some,
            app.cstores is Some,
        ensures
            forall|g: DirectedGraph<usize>| graph_of_pipes(g, app.pipes@) ==> reported(r, #[trigger] app_findings(*app, g)),
    {
        let r = self.validate_pipes(app);
        if r.is_err() {
            return r;
        }
        let r = self.validate_objects(app);
        if r.is_err() {
            return r;
        }
        self.validate_cstores(app)
    }
}

proof fn lemma_upstream_findings_empty(
    g: DirectedGraph<usize>,
    index: Seq<Seq<char>>,
    sources: Seq<bool>,
    loc: Seq<char>,
    n: int,
    k: int,
)
    requires
        upstream_findings(g, index, sources, loc, n).len() == 0,
        0 <= k < n,
    ensures
        upstream_finding(g, index[k], sources[k], loc, k).len() == 0,
    decreases n,
{
    if k < n - 1 {
        lemma_upstream_findings_empty(g, index, sources, loc, n - 1, k);
    }
}

proof fn lemma_pos_of_found(s: Seq<Seq<char>>, x: Seq<char>)
    requires
        s.contains(x),
    ensures
        pos_of(s, x) >= 0,
    decreases s.len(),
{
    if s[0] != x {
        let k = choose|k: int| 0 <= k < s.len() && s[k] == x;
        assert(s.drop_first()[k - 1] == x);
        lemma_pos_of_found(s.drop_first(), x);
    }
}

proof fn lemma_cycle_findings_empty(cyc: Seq<Seq<char>>, index: Seq<Seq<char>>, loc: Seq<char>, x: Seq<char>)
    requires
        cycle_findings(cyc, index, loc).len() == 0,
        cyc.contains(x),
    ensures
        pos_of(index, x) < 0,
    decreases cyc.len(),
{
    if cyc.last() != x {
        let k = choose|k: int| 0 <= k < cyc.len() && cyc[k] == x;
        assert(cyc.drop_last()[k] == x);
        lemma_cycle_findings_empty(cyc.drop_last(), index, loc, x);
    }
}

proof fn lemma_uniqueness_empty(ids: Seq<Seq<char>>, loc: Seq<char>, field: Seq<char>, msg: Seq<char>)
    requires
        uniqueness_findings(ids, loc, field, msg).len() == 0,
    ensures
        ids.no_duplicates(),
    decreases ids.len(),
{
    if ids.len() > 0 {
        lemma_uniqueness_empty(ids.drop_last(), loc, field, msg);
        assert forall|i: int, j: int| 0 <= i < ids.len() && 0 <= j < ids.len() && i != j implies ids[i] != ids[j] by {
            if i < ids.len() - 1 && j < ids.len() - 1 {
                assert(ids.drop_last()[i] == ids[i] && ids.drop_last()[j] == ids[j]);
            } else if i == ids.len() - 1 {
                if ids[i] == ids[j] {
                    assert(ids.drop_last()[j] == ids[j]);
                }
            } else {
                if ids[i] == ids[j] {
                    assert(ids.drop_last()[i] == ids[i]);
                }
            }
        }
    }
}

/// Pipes that validate form a sound pipeline graph: pipe names are unique,
/// sources and only sources have no upstream, every upstream is a pipe, and
/// no pipe lies on or downstream of a cycle.
pub proof fn lemma_valid_pipes(ps: Seq<Pipe>, g: DirectedGraph<usize>)
    requires
        graph_of_pipes(g, ps),
        pipes_findings(ps, g).len() == 0,
    ensures
        pipe_names(ps).no_duplicates(),
        forall|k: int| 0 <= k < ps.len() ==> (is_source_type((#[trigger] ps[k]).ty) <==> !has_upstream(g, ps[k].name@)),
        forall|k: int, u: Seq<char>| 0 <= k < ps.len() && #[trigger] g.id_edge(u, (#[trigger] ps[k]).name@) ==> declared(g, u),
        forall|v: int| 0 <= v < g.ids().len() ==> !#[trigger] g.unpeelable(v),
{
    let names = pipe_names(ps);
    let idf = rule_then_unique(names, "pipes"@, PIPE_ENTITY_ID_FIELD@, IdRule::SnakeCase, "use snake_case"@, "duplicated"@);
    assert(idf.len() == 0);
    lemma_uniqueness_empty(names, "pipes"@, PIPE_ENTITY_ID_FIELD@, "duplicated"@);
    let sources = pipe_sources(ps);
    let up = upstream_findings(g, names, sources, "pipes"@, names.len() as int);
    assert(up.len() == 0);
    assert forall|k: int| 0 <= k < ps.len() implies (is_source_type((#[trigger] ps[k]).ty) <==> !has_upstream(g, ps[k].name@)) by {
        lemma_upstream_findings_empty(g, names, sources, "pipes"@, names.len() as int, k);
    }
    assert forall|k: int, u: Seq<char>| 0 <= k < ps.len() && #[trigger] g.id_edge(u, (#[trigger] ps[k]).name@) implies declared(g, u) by {
        lemma_upstream_findings_empty(g, names, sources, "pipes"@, names.len() as int, k);
        assert(has_upstream(g, ps[k].name@));
    }
    let cyc = pick(g.ids(), |i: int| g.unpeelable(i));
    assert(cycle_findings(cyc, names, "pipes"@).len() == 0);
    assert forall|v: int| 0 <= v < g.ids().len() implies !#[trigger] g.unpeelable(v) by {
        if g.unpeelable(v) {
            g.lemma_cycle_vertex_has_cycle_pred(v);
            let u = choose|u: int| #[trigger] g.edge(u, v) && g.unpeelable(u);
            g.lemma_edge_in_range(u, v);
            assert(pipes_edge(ps, g.ids()[u], g.ids()[v]));
            let k = choose|k: int| 0 <= k < ps.len() && (#[trigger] ps[k]).name@ == g.ids()[v] && pipe_upstreams(ps[k]).contains(g.ids()[u]);
            assert(names[k] == g.ids()[v]);
            lemma_pos_of_found(names, g.ids()[v]);
            crate::ops::graph::lemma_pick_contains(g.ids(), |i: int| g.unpeelable(i), g.ids()[v]);
            lemma_cycle_findings_empty(cyc, names, "pipes"@, g.ids()[v]);
        }
    }
}

} // verus!
