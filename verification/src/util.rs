//! License records that travel with a filter, and the ids of failed
//! requests.

use vstd::prelude::*;
use crate::random::{is_alphanumeric, random_text, thread_generator};

verus! {

/// Under which license one part of the software or of its data stands.
#[derive(Clone, Debug)]
pub struct License {
    /// Which part of the software or data this license is for.
    pub part: String,
    /// Who is the author.
    pub author: String,
    /// Link to the owner.
    pub owner_url: String,
    /// Link to the project.
    pub project_url: String,
    /// Which license is being used.
    pub license: String,
}

/// A license record as five texts.
pub struct LicenseView {
    pub part: Seq<char>,
    pub author: Seq<char>,
    pub owner_url: Seq<char>,
    pub project_url: Seq<char>,
    pub license: Seq<char>,
}

impl View for License {
    type V = LicenseView;

    open spec fn view(&self) -> LicenseView {
        LicenseView {
            part: self.part@,
            author: self.author@,
            owner_url: self.owner_url@,
            project_url: self.project_url@,
            license: self.license@,
        }
    }
}

/// The texts of a list of license records, in order.
pub open spec fn licenses_view(records: Seq<License>) -> Seq<LicenseView> {
    Seq::new(records.len(), |i: int| records[i]@)
}

impl License {
    /// A copy of this record, text for text.
    pub fn duplicate(&self) -> (r: License)
        ensures
            r@ == self@,
    {
        License {
            part: self.part.clone(),
            author: self.author.clone(),
            owner_url: self.owner_url.clone(),
            project_url: self.project_url.clone(),
            license: self.license.clone(),
        }
    }
}

/// A copy of a list of license records, in the same order.
pub fn duplicate_licenses(records: &Vec<License>) -> (r: Vec<License>)
    ensures
        licenses_view(r@) == licenses_view(records@),
{
    let mut out: Vec<License> = Vec::new();
    let mut i: usize = 0;
    while i < records.len()
        invariant
            i <= records.len(),
            out.len() == i,
            forall|j: int| 0 <= j < i ==> (#[trigger] out@[j])@ == records@[j]@,
        decreases records.len() - i,
    {
        out.push(records[i].duplicate());
        i = i + 1;
    }
    assert(licenses_view(out@) =~= licenses_view(records@));
    out
}

/// The number of characters of an error id.
pub const ERROR_ID_LENGTH: usize = 10;

/// A fresh random id by which a failed request is found again in the logs:
/// ten ASCII letters and digits. Which ten is left to chance.
pub fn get_error_id() -> (r: String)
    ensures
        r@.len() == ERROR_ID_LENGTH,
        forall|i: int| 0 <= i < r@.len() ==> is_alphanumeric(#[trigger] r@[i]),
{
    let mut generator = thread_generator();
    random_text(&mut generator, ERROR_ID_LENGTH)
}

} // verus!
