use vstd::prelude::*;
use vstd::string::StrSliceExecFns;

verus! {

/// Whether a character counts as a letter for the leading position of a
/// package identifier.
pub uninterp spec fn char_alphabetic(c: char) -> bool;

/// Whether a character counts as a letter or digit for the non-leading
/// positions of a package identifier.
pub uninterp spec fn char_alphanumeric(c: char) -> bool;

/// Relies on char::is_alphabetic: true exactly for letters, and a letter is
/// never the key separator '/'.
#[verifier::external_body]
fn is_alphabetic_char(c: char) -> (r: bool)
    ensures
        r == char_alphabetic(c),
        r ==> c != '/',
{
    c.is_alphabetic()
}

/// Relies on char::is_alphanumeric: true exactly for letters and digits, and
/// those never include the key separator '/'.
#[verifier::external_body]
fn is_alphanumeric_char(c: char) -> (r: bool)
    ensures
        r == char_alphanumeric(c),
        r ==> c != '/',
{
    c.is_alphanumeric()
}

/// Relies on String::push: appends exactly one character.
#[verifier::external_body]
pub(crate) fn push_char(s: &mut String, c: char)
    ensures
        final(s)@ == old(s)@.push(c),
{
    s.push(c);
}

/// The reasons a package identifier is rejected.
#[derive(Clone, Copy, Debug, PartialEq, Eq, Structural)]
pub enum CrateNameParseError {
    FirstChar,
    RestChar,
    Empty,
}

/// A character allowed after the leading letter of a package identifier.
pub open spec fn rest_char_ok(c: char) -> bool {
    char_alphanumeric(c) || c == '-' || c == '_'
}

/// A well-formed package identifier: non-empty, a letter first, then letters,
/// digits, '-' or '_'.
pub open spec fn spec_name_ok(s: Seq<char>) -> bool {
    &&& s.len() > 0
    &&& char_alphabetic(s[0])
    &&& forall|i: int| 1 <= i < s.len() ==> rest_char_ok(#[trigger] s[i])
}

/// Identifier normalization: every '_' becomes '-'.
pub open spec fn spec_normalize(s: Seq<char>) -> Seq<char> {
    s.map_values(|c: char| if c == '_' { '-' } else { c })
}

/// The abstract value of a package name: the spelling the publisher used and
/// the normalized spelling every storage key uses.
pub struct CrateNameV {
    pub original: Seq<char>,
    pub normalized: Seq<char>,
}

/// The invariant every parsed name carries: the original spelling is
/// well-formed, the normalized spelling is its normalization, and no
/// character of the normalized spelling is the key separator '/'.
pub open spec fn name_wf(n: CrateNameV) -> bool {
    &&& spec_name_ok(n.original)
    &&& n.normalized == spec_normalize(n.original)
    &&& forall|i: int| 0 <= i < n.normalized.len() ==> #[trigger] n.normalized[i] != '/'
}

/// A validated package name. Storage and identity go by `normalized`; display
/// goes by `original`.
#[derive(Debug, Eq, Hash)]
pub struct CrateName {
    original: String,
    normalized: String,
}

impl View for CrateName {
    type V = CrateNameV;

    closed spec fn view(&self) -> CrateNameV {
        CrateNameV { original: self.original@, normalized: self.normalized@ }
    }
}

impl CrateName {
    /// The invariant every parsed name carries; see [`name_wf`].
    pub open spec fn wf(&self) -> bool {
        name_wf(self@)
    }

    /// Validates and normalizes a package identifier.
    ///
    /// Succeeds exactly on non-empty strings whose first character is a
    /// letter and whose remaining characters are letters, digits, '-' or '_';
    /// the parsed name keeps the input as `original` and replaces every '_'
    /// with '-' in `normalized`.
    pub fn parse(s: &str) -> (r: Result<CrateName, CrateNameParseError>)
        ensures
            r is Ok <==> spec_name_ok(s@),
            r matches Ok(n) ==> n@.original == s@ && n@.normalized == spec_normalize(s@)
                && n.wf(),
            r == Err::<CrateName, _>(CrateNameParseError::Empty) <==> s@.len() == 0,
            r == Err::<CrateName, _>(CrateNameParseError::FirstChar) <==> s@.len() > 0
                && !char_alphabetic(s@[0]),
            r == Err::<CrateName, _>(CrateNameParseError::RestChar) <==> s@.len() > 0
                && char_alphabetic(s@[0]) && !spec_name_ok(s@),
    {
        let len = s.unicode_len();
        if len == 0 {
            return Err(CrateNameParseError::Empty);
        }
        let first = s.get_char(0);
        if !is_alphabetic_char(first) {
            return Err(CrateNameParseError::FirstChar);
        }
        let mut normalized = String::new();
        push_char(&mut normalized, if first == '_' { '-' } else { first });
        let mut i: usize = 1;
        while i < len
            invariant
                1 <= i <= len,
                len == s@.len(),
                char_alphabetic(s@[0]),
                forall|j: int| 1 <= j < i ==> rest_char_ok(#[trigger] s@[j]),
                normalized@ == spec_normalize(s@.subrange(0, i as int)),
                forall|j: int| 0 <= j < normalized@.len() ==> #[trigger] normalized@[j] != '/',
            decreases len - i,
        {
            let c = s.get_char(i);
            if !is_alphanumeric_char(c) && c != '-' && c != '_' {
                return Err(CrateNameParseError::RestChar);
            }
            push_char(&mut normalized, if c == '_' { '-' } else { c });
            proof {
                assert(s@.subrange(0, i + 1) == s@.subrange(0, i as int).push(s@[i as int]));
                assert(normalized@ =~= spec_normalize(s@.subrange(0, i + 1)));
            }
            i += 1;
        }
        proof {
            assert(s@.subrange(0, len as int) == s@);
        }
        Ok(CrateName { original: s.to_owned(), normalized })
    }

    /// The spelling the publisher used.
    pub fn original(&self) -> (r: &str)
        ensures
            r@ == self@.original,
    {
        self.original.as_str()
    }

    /// The normalized spelling that identity and storage keys use.
    pub fn normalized(&self) -> (r: &str)
        ensures
            r@ == self@.normalized,
    {
        self.normalized.as_str()
    }
}

impl Clone for CrateName {
    /// Cloning keeps both spellings.
    fn clone(&self) -> (r: Self)
        ensures
            r@ == self@,
    {
        CrateName { original: self.original.clone(), normalized: self.normalized.clone() }
    }
}

impl PartialEq for CrateName {
    /// Equality considers both spellings: two names with different original
    /// spellings are distinct values even where they collide on the
    /// normalized spelling every storage key uses.
    fn eq(&self, other: &CrateName) -> (r: bool) {
        self.original == other.original && self.normalized == other.normalized
    }
}

impl vstd::std_specs::cmp::PartialEqSpecImpl for CrateName {
    open spec fn obeys_eq_spec() -> bool {
        true
    }

    open spec fn eq_spec(&self, other: &CrateName) -> bool {
        self@.original == other@.original && self@.normalized == other@.normalized
    }
}

} // verus!
