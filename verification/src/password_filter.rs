//! The password filter: a binary fuse filter over fingerprints, together
//! with the license records of what it was made from.

use vstd::prelude::*;
use crate::fuse::{
    fuse_contains, fuse_from_parts, fuse_layout, fuse_layout_of, fuse_len, fuse_matches,
    fuse_slot, fuse_table, is_power_of_two, layout_fits, Layout, MAX_KEYS,
};
use crate::keys::all_distinct;
use crate::util::{licenses_view, License, LicenseView};

verus! {

/// What a filter is: a layout, a table of slots, and license records.
pub struct FilterView {
    pub layout: Layout,
    pub table: Seq<u32>,
    pub licenses: Seq<LicenseView>,
}

impl FilterView {
    /// A filter is either empty or has a table that its layout fits.
    pub open spec fn well_formed(self) -> bool {
        self.table.len() == 0 || layout_fits(self.layout, self.table.len())
    }

    /// Whether the filter answers that it holds `key`. A filter without
    /// slots holds nothing.
    pub open spec fn contains(self, key: u64) -> bool {
        self.table.len() > 0 && fuse_matches(self.layout, self.table, key)
    }

    /// Whether the filter holds every key of `keys`.
    pub open spec fn contains_all(self, keys: Seq<u64>) -> bool {
        forall|i: int| 0 <= i < keys.len() ==> self.contains(#[trigger] keys[i])
    }
}

/// An immutable membership filter over fingerprints.
pub struct PasswordFilter {
    filter: xorf::BinaryFuse32,
    licenses: Vec<License>,
}

impl View for PasswordFilter {
    type V = FilterView;

    closed spec fn view(&self) -> FilterView {
        FilterView {
            layout: fuse_layout(self.filter),
            table: fuse_table(self.filter),
            licenses: licenses_view(self.licenses@),
        }
    }
}

/// Whether `n` is a power of two.
pub fn power_of_two(n: u32) -> (r: bool)
    ensures
        r == is_power_of_two(n as nat),
{
    let mut m: u32 = n;
    while m > 1 && m % 2 == 0
        invariant
            is_power_of_two(m as nat) == is_power_of_two(n as nat),
        decreases m,
    {
        m = m / 2;
    }
    m == 1
}

/// Whether a table of `slots` slots can be read under `layout`.
pub fn check_layout(layout: &Layout, slots: usize) -> (r: bool)
    ensures
        r == layout_fits(*layout, slots as nat),
{
    if !power_of_two(layout.segment_length) {
        return false;
    }
    let end: u64 = layout.segment_count_length as u64 + 2 * (layout.segment_length as u64);
    layout.segment_length_mask == layout.segment_length - 1 && layout.segment_count_length > 0
        && layout.segment_count_length % layout.segment_length == 0 && end <= slots as u64 && end
        <= u32::MAX as u64
}

impl PasswordFilter {
    #[verifier::type_invariant]
    spec fn inv(self) -> bool {
        self@.well_formed()
    }

    /// Takes a filter of `xorf` into the library, with its license records.
    /// One whose table is not empty and does not fit its layout is refused:
    /// a query on it could leave the table.
    pub fn new(filter: xorf::BinaryFuse32, licenses: Vec<License>) -> (r: Option<PasswordFilter>)
        ensures
            r.is_some() == (FilterView {
                layout: fuse_layout(filter),
                table: fuse_table(filter),
                licenses: licenses_view(licenses@),
            }).well_formed(),
            r matches Some(f) ==> f@ == (FilterView {
                layout: fuse_layout(filter),
                table: fuse_table(filter),
                licenses: licenses_view(licenses@),
            }),
    {
        let slots: usize = fuse_len(&filter);
        let layout: Layout = fuse_layout_of(&filter);
        if slots == 0 || check_layout(&layout, slots) {
            Some(PasswordFilter { filter, licenses })
        } else {
            None
        }
    }

    /// The filter of no keys: no slots, and so no members.
    pub fn empty(licenses: Vec<License>) -> (r: PasswordFilter)
        ensures
            r@ == empty_view(licenses_view(licenses@)),
    {
        let layout = Layout {
            seed: 0,
            segment_length: 0,
            segment_length_mask: 0,
            segment_count_length: 0,
        };
        let filter = fuse_from_parts(layout, Vec::new());
        assert(fuse_table(filter) =~= Seq::<u32>::empty());
        PasswordFilter { filter, licenses }
    }

    /// Whether the filter holds `key`. True for every key that the filter
    /// was built from; for any other key false but for a chance of about
    /// one in four billion. A filter without slots holds no key.
    pub fn contains(&self, key: &u64) -> (r: bool)
        ensures
            r == self@.contains(*key),
    {
        proof {
            use_type_invariant(self);
        }
        if fuse_len(&self.filter) == 0 {
            false
        } else {
            fuse_contains(&self.filter, *key)
        }
    }

    /// The number of slots in the table, not the number of keys.
    pub fn len(&self) -> (r: usize)
        ensures
            r == self@.table.len(),
    {
        fuse_len(&self.filter)
    }

    /// Whether the table has no slots.
    pub fn is_empty(&self) -> (r: bool)
        ensures
            r == (self@.table.len() == 0),
    {
        self.len() == 0
    }

    /// The value of slot `i` of the table.
    pub fn slot(&self, i: usize) -> (r: u32)
        requires
            i < self@.table.len(),
        ensures
            r == self@.table[i as int],
    {
        fuse_slot(&self.filter, i)
    }

    /// The license records that the filter carries.
    pub fn licenses(&self) -> (r: &Vec<License>)
        ensures
            licenses_view(r@) == self@.licenses,
    {
        &self.licenses
    }

    /// The layout of the table.
    pub fn layout(&self) -> (r: Layout)
        ensures
            r == self@.layout,
            self@.well_formed(),
    {
        proof {
            use_type_invariant(self);
        }
        fuse_layout_of(&self.filter)
    }
}

/// Why no filter was built.
#[derive(Clone, Copy, Debug, PartialEq, Eq, Structural)]
pub enum ConstructionError {
    /// There are more keys than one filter takes.
    TooManyKeys,
    /// A key occurs twice.
    DuplicateKeys,
    /// Every seed that was tried left keys that could not be placed.
    Exhausted,
    /// The table that was built does not fit its layout, has fewer slots
    /// than there are keys, or misses a key.
    Rejected,
}

/// The record for the filter itself.
pub open spec fn filter_license() -> LicenseView {
    LicenseView {
        part: "XOR filter"@,
        author: "Mixxplorer GmbH"@,
        owner_url: "https://mixxplorer.de"@,
        project_url: "https://rechenknecht.net/mixxplorer/lcc/lcc"@,
        license: "MIT"@,
    }
}

/// The record for the corpus of leaked passwords.
pub open spec fn corpus_license() -> LicenseView {
    LicenseView {
        part: "Leaked passwords"@,
        author: "Have I Been Pwned"@,
        owner_url: "https://haveibeenpwned.com"@,
        project_url: "https://haveibeenpwned.com/API/v3"@,
        license: "Creative Commons Attribution 4.0 International License."@,
    }
}

/// The records that every freshly built filter carries.
pub open spec fn default_licenses_view() -> Seq<LicenseView> {
    seq![filter_license(), corpus_license()]
}

/// The records that every freshly built filter carries.
pub fn default_licenses() -> (r: Vec<License>)
    ensures
        licenses_view(r@) == default_licenses_view(),
{
    let mut out: Vec<License> = Vec::new();
    out.push(
        License {
            part: "XOR filter".to_owned(),
            author: "Mixxplorer GmbH".to_owned(),
            owner_url: "https://mixxplorer.de".to_owned(),
            project_url: "https://rechenknecht.net/mixxplorer/lcc/lcc".to_owned(),
            license: "MIT".to_owned(),
        },
    );
    out.push(
        License {
            part: "Leaked passwords".to_owned(),
            author: "Have I Been Pwned".to_owned(),
            owner_url: "https://haveibeenpwned.com".to_owned(),
            project_url: "https://haveibeenpwned.com/API/v3".to_owned(),
            license: "Creative Commons Attribution 4.0 International License.".to_owned(),
        },
    );
    assert(licenses_view(out@) =~= default_licenses_view());
    out
}

/// The filter of no keys: no slots, and so no members.
pub open spec fn empty_view(licenses: Seq<LicenseView>) -> FilterView {
    FilterView {
        layout: Layout {
            seed: 0,
            segment_length: 0,
            segment_length_mask: 0,
            segment_count_length: 0,
        },
        table: Seq::empty(),
        licenses,
    }
}

/// What becomes of a filter that was built for `keys`: it passes only if
/// its table fits its layout, has a slot for every key at least, and holds
/// every one of the keys. `None` stands for a build that gave up.
pub open spec fn finished(
    built: Option<xorf::BinaryFuse32>,
    keys: Seq<u64>,
    licenses: Seq<LicenseView>,
) -> Result<FilterView, ConstructionError> {
    match built {
        None => Err(ConstructionError::Exhausted),
        Some(filter) => {
            let view = FilterView {
                layout: fuse_layout(filter),
                table: fuse_table(filter),
                licenses,
            };
            if view.well_formed() && view.table.len() >= keys.len() && view.contains_all(keys) {
                Ok(view)
            } else {
                Err(ConstructionError::Rejected)
            }
        },
    }
}

/// Whether a filter can be built from `keys` at all: there are not too
/// many of them, and no key occurs twice.
pub open spec fn keys_verdict(keys: Seq<u64>) -> Result<(), ConstructionError> {
    if keys.len() > MAX_KEYS {
        Err(ConstructionError::TooManyKeys)
    } else if !keys.no_duplicates() {
        Err(ConstructionError::DuplicateKeys)
    } else {
        Ok(())
    }
}

/// The filter of `keys`, given what `xorf` built for them: none for a list
/// that cannot be built from, the filter without slots for no keys, and
/// else what was built, if it passes.
pub open spec fn constructed(
    keys: Seq<u64>,
    built: Option<xorf::BinaryFuse32>,
    licenses: Seq<LicenseView>,
) -> Result<FilterView, ConstructionError> {
    match keys_verdict(keys) {
        Err(e) => Err(e),
        Ok(_) => if keys.len() == 0 {
            Ok(empty_view(licenses))
        } else {
            finished(built, keys, licenses)
        },
    }
}

/// Whether the filter holds every key of `keys`.
pub fn holds_all(filter: &PasswordFilter, keys: &Vec<u64>) -> (r: bool)
    ensures
        r == filter@.contains_all(keys@),
{
    let mut i: usize = 0;
    while i < keys.len()
        invariant
            i <= keys.len(),
            forall|j: int| 0 <= j < i ==> filter@.contains(#[trigger] keys@[j]),
        decreases keys.len() - i,
    {
        if !filter.contains(&keys[i]) {
            return false;
        }
        i = i + 1;
    }
    true
}

/// Completes a build: takes what `xorf` made of `keys` and lets it pass
/// only if its table fits its layout, has a slot for every key at least,
/// and holds every one of the keys.
pub fn finish_filter(
    built: Option<xorf::BinaryFuse32>,
    keys: &Vec<u64>,
    licenses: Vec<License>,
) -> (r: Result<PasswordFilter, ConstructionError>)
    ensures
        match r {
            Ok(filter) => finished(built, keys@, licenses_view(licenses@)) == Ok::<
                FilterView,
                ConstructionError,
            >(filter@),
            Err(e) => finished(built, keys@, licenses_view(licenses@)) == Err::<
                FilterView,
                ConstructionError,
            >(e),
        },
{
    match built {
        None => Err(ConstructionError::Exhausted),
        Some(raw) => match PasswordFilter::new(raw, licenses) {
            None => Err(ConstructionError::Rejected),
            Some(filter) => {
                if filter.len() >= keys.len() && holds_all(&filter, keys) {
                    Ok(filter)
                } else {
                    Err(ConstructionError::Rejected)
                }
            },
        },
    }
}

/// Tests a list of keys before a filter is built from it. A list that
/// passes is one that `BinaryFuse32::try_from_iterator` takes: it asks for
/// distinct keys, and for no more than it can size a table for.
pub fn check_keys(keys: &Vec<u64>) -> (r: Result<(), ConstructionError>)
    ensures
        r == keys_verdict(keys@),
{
    if keys.len() > MAX_KEYS {
        Err(ConstructionError::TooManyKeys)
    } else if !all_distinct(keys) {
        Err(ConstructionError::DuplicateKeys)
    } else {
        Ok(())
    }
}

/// Makes the password filter of a list of distinct fingerprints out of
/// what `BinaryFuse32::try_from_iterator` built for them; `None` stands for
/// its error. The filter that comes back holds every key of the list, and
/// has a slot for each at least. No keys give the filter without slots,
/// whatever was built.
///
/// The build is the caller's to make, once `check_keys` has passed the
/// list. It counts the keys of a slot in eight bits, four to a key, and
/// compiled with overflow checks it stops where sixty-four keys fall on one
/// slot under a seed that it tries; nothing short of the build tells such a
/// list from another, and no function of this library stops.
pub fn construct_filter(keys: &Vec<u64>, built: Option<xorf::BinaryFuse32>) -> (r: Result<
    PasswordFilter,
    ConstructionError,
>)
    ensures
        match r {
            Ok(filter) => constructed(keys@, built, default_licenses_view()) == Ok::<
                FilterView,
                ConstructionError,
            >(filter@),
            Err(e) => constructed(keys@, built, default_licenses_view()) == Err::<
                FilterView,
                ConstructionError,
            >(e),
        },
        r matches Ok(filter) ==> {
            &&& filter@.well_formed()
            &&& filter@.contains_all(keys@)
            &&& filter@.table.len() >= keys@.len()
            &&& filter@.licenses == default_licenses_view()
        },
{
    match check_keys(keys) {
        Err(e) => Err(e),
        Ok(_) => if keys.len() == 0 {
            Ok(PasswordFilter::empty(default_licenses()))
        } else {
            finish_filter(built, keys, default_licenses())
        },
    }
}

} // verus!
