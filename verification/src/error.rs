//! Errors reported by the library: failed requests, and the findings of a
//! validation.
use crate::text::join_seqs;
use vstd::prelude::*;

verus! {

/// A finding of validation: where in the manifest, and what is wrong.
pub open spec fn finding_view(d: (String, String)) -> (Seq<char>, Seq<char>) {
    (d.0@, d.1@)
}

/// The views of a list of findings.
pub open spec fn findings_view(d: Seq<(String, String)>) -> Seq<(Seq<char>, Seq<char>)> {
    d.map_values(|p: (String, String)| finding_view(p))
}

/// One finding as text: the message, ` at `, the location.
pub open spec fn finding_text(f: (Seq<char>, Seq<char>)) -> Seq<char> {
    f.1 + " at "@ + f.0
}

/// The findings as text, one per line.
pub open spec fn findings_text(f: Seq<(Seq<char>, Seq<char>)>) -> Seq<char> {
    join_seqs(f.map_values(|x: (Seq<char>, Seq<char>)| finding_text(x)), ",\n"@)
}

/// The findings of a validation, with their text.
#[derive(Debug)]
pub struct ValidationErrorDetailsDisplay {
    pub details: Vec<(String, String)>,
}

impl ValidationErrorDetailsDisplay {
    /// Findings as given.
    pub fn new(details: Vec<(String, String)>) -> (r: Self)
        ensures
            r.details == details,
    {
        ValidationErrorDetailsDisplay { details }
    }

    /// The findings, one per line: `message at location`.
    pub fn to_string(&self) -> (r: String)
        ensures
            r@ == findings_text(findings_view(self.details@)),
    {
        let ghost fs = findings_view(self.details@).map_values(|x: (Seq<char>, Seq<char>)| finding_text(x));
        let mut r = String::new();
        let mut i: usize = 0;
        while i < self.details.len()
            invariant
                i <= self.details.len(),
                fs == findings_view(self.details@).map_values(|x: (Seq<char>, Seq<char>)| finding_text(x)),
                r@ == join_seqs(fs.take(i as int), ",\n"@),
            decreases self.details.len() - i,
        {
            assert(fs.take(i + 1).drop_last() =~= fs.take(i as int));
            if i > 0 {
                r.append(",\n");
            }
            r.append(self.details[i].1.as_str());
            r.append(" at ");
            r.append(self.details[i].0.as_str());
            assert(fs.take(i + 1).last() == finding_text(finding_view(self.details@[i as int])));
            i = i + 1;
        }
        assert(fs.take(self.details.len() as int) =~= fs);
        r
    }
}

/// What went wrong in a request to the library.
#[derive(Debug)]
pub enum Error {
    /// A request that cannot be served, with its reason.
    Api(String),
    /// A manifest that failed validation, with the findings.
    Validation(ValidationErrorDetailsDisplay),
}

impl Error {
    /// The error as text.
    pub fn to_string(&self) -> (r: String)
        ensures
            r@ == match self {
                Error::Api(m) => m@,
                Error::Validation(d) => findings_text(findings_view(d.details@)),
            },
    {
        match self {
            Error::Api(m) => m.clone(),
            Error::Validation(d) => d.to_string(),
        }
    }
}

/// A copy of a text, character by character.
pub fn copy_text(s: &str) -> (r: String)
    ensures
        r@ == s@,
{
    let mut r = String::new();
    r.append(s);
    r
}

} // verus!
