use vstd::prelude::*;

verus! {

/// Whether a string is a version that the semantic-versioning grammar
/// accepts (three dot-separated numbers, optional pre-release and build
/// parts).
pub uninterp spec fn semver_valid(s: Seq<char>) -> bool;

/// A character the semantic-versioning grammar can contain: an ASCII letter
/// or digit, '.', '-' or '+'. The key separator '/' is not among them.
pub open spec fn semver_char(c: char) -> bool {
    ||| ('0' <= c && c <= '9')
    ||| ('a' <= c && c <= 'z')
    ||| ('A' <= c && c <= 'Z')
    ||| c == '.'
    ||| c == '-'
    ||| c == '+'
}

/// Relies on semver::Version::parse: it accepts exactly the version grammar,
/// never an empty string, and only strings of ASCII letters, digits, '.',
/// '-' and '+'.
#[verifier::external_body]
fn is_semver(s: &str) -> (r: bool)
    ensures
        r == semver_valid(s@),
        r ==> s@.len() > 0,
        r ==> forall|i: int| 0 <= i < s@.len() ==> semver_char(#[trigger] s@[i]),
{
    semver::Version::parse(s).is_ok()
}

/// A version string that the semantic-versioning grammar accepts. Storage
/// keys embed it verbatim, so equality of versions is equality of the
/// accepted spelling.
#[derive(Debug)]
pub struct Version {
    raw: String,
}

impl View for Version {
    type V = Seq<char>;

    closed spec fn view(&self) -> Seq<char> {
        self.raw@
    }
}

/// The invariant every parsed version carries: the grammar accepts it, it is
/// non-empty, and no character of it is the key separator '/'.
pub open spec fn version_wf(v: Seq<char>) -> bool {
    &&& semver_valid(v)
    &&& v.len() > 0
    &&& forall|i: int| 0 <= i < v.len() ==> semver_char(#[trigger] v[i])
}

impl Version {
    /// The invariant every parsed version carries; see [`version_wf`].
    pub open spec fn wf(&self) -> bool {
        version_wf(self@)
    }

    /// Validates a version string. Succeeds exactly when the
    /// semantic-versioning grammar accepts it, and keeps the spelling.
    pub fn parse(s: &str) -> (r: Option<Version>)
        ensures
            r is Some <==> semver_valid(s@),
            r matches Some(v) ==> v@ == s@ && v.wf(),
    {
        if is_semver(s) {
            Some(Version { raw: s.to_owned() })
        } else {
            None
        }
    }

    /// The accepted spelling.
    pub fn as_str(&self) -> (r: &str)
        ensures
            r@ == self@,
    {
        self.raw.as_str()
    }
}

impl Clone for Version {
    /// Cloning keeps the spelling.
    fn clone(&self) -> (r: Self)
        ensures
            r@ == self@,
            self.wf() ==> r.wf(),
    {
        Version { raw: self.raw.clone() }
    }
}

} // verus!
