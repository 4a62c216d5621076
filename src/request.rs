use vstd::prelude::*;

verus! {

/// Why a `name/version/path` request could not be parsed.
#[derive(Clone, Debug, PartialEq, Eq)]
pub enum PackageFileRequestParsingError {
    /// The name starts with `@` but no second segment follows it.
    InvalidScopedName(String),
    /// The first segment, the package name, is empty.
    InvalidNameFormat(String),
    /// No version segment follows the name, or it is empty.
    MissingVersion(String),
}

/// A request for one file of one version of one package.
#[derive(Debug, Clone, PartialEq, Eq)]
pub struct PackageFileRequest {
    pub name: String,
    pub version: String,
    pub path: String,
}

/// The position of the first `/` in `s` at or after `from`, or `s.len()` if none.
pub open spec fn next_slash(s: Seq<char>, from: int) -> int
    decreases s.len() - from,
{
    if from < 0 || from >= s.len() {
        s.len() as int
    } else if s[from] == '/' {
        from
    } else {
        next_slash(s, from + 1)
    }
}

/// The first segment, which names the package (or its scope).
pub open spec fn first_segment(s: Seq<char>) -> Seq<char> {
    s.subrange(0, next_slash(s, 0))
}

pub open spec fn is_scoped(s: Seq<char>) -> bool {
    first_segment(s).len() > 0 && first_segment(s)[0] == '@'
}

pub open spec fn name_missing(s: Seq<char>) -> bool {
    first_segment(s).len() == 0
}

pub open spec fn scope_incomplete(s: Seq<char>) -> bool {
    !name_missing(s) && is_scoped(s) && next_slash(s, 0) == s.len()
}

/// Where the name ends: after the first segment, or after the second for a
/// scoped name.
pub open spec fn name_end(s: Seq<char>) -> int {
    if is_scoped(s) {
        next_slash(s, next_slash(s, 0) + 1)
    } else {
        next_slash(s, 0)
    }
}

pub open spec fn version_end(s: Seq<char>) -> int {
    next_slash(s, name_end(s) + 1)
}

pub open spec fn version_missing(s: Seq<char>) -> bool {
    !name_missing(s) && !scope_incomplete(s) && (name_end(s) == s.len() || version_end(s)
        == name_end(s) + 1)
}

pub open spec fn request_parses(s: Seq<char>) -> bool {
    !name_missing(s) && !scope_incomplete(s) && !version_missing(s)
}

pub open spec fn request_name(s: Seq<char>) -> Seq<char> {
    s.subrange(0, name_end(s))
}

pub open spec fn request_version(s: Seq<char>) -> Seq<char> {
    s.subrange(name_end(s) + 1, version_end(s))
}

/// Everything after the slash that ends the version, or nothing.
pub open spec fn request_path(s: Seq<char>) -> Seq<char> {
    if version_end(s) == s.len() {
        Seq::empty()
    } else {
        s.subrange(version_end(s) + 1, s.len() as int)
    }
}

proof fn lemma_next_slash_bounds(s: Seq<char>, from: int)
    requires
        0 <= from,
    ensures
        from <= s.len() ==> from <= next_slash(s, from) <= s.len(),
        next_slash(s, from) < s.len() ==> s[next_slash(s, from)] == '/',
    decreases s.len() - from,
{
    if from < s.len() && s[from] != '/' {
        lemma_next_slash_bounds(s, from + 1);
    }
}

proof fn lemma_next_slash_found(s: Seq<char>, from: int, at: int)
    requires
        0 <= from <= at <= s.len(),
        forall|k: int| from <= k < at ==> s[k] != '/',
        at == s.len() || s[at] == '/',
    ensures
        next_slash(s, from) == at,
    decreases at - from,
{
    if from < at {
        lemma_next_slash_found(s, from + 1, at);
    }
}

/// The first `/` of `s` at or after `from`.
fn find_slash(s: &str, len: usize, from: usize) -> (r: usize)
    requires
        len == s@.len(),
        from <= len,
    ensures
        r == next_slash(s@, from as int),
        from <= r <= len,
{
    let mut i: usize = from;
    while i < len && s.get_char(i) != '/'
        invariant
            len == s@.len(),
            from <= i <= len,
            forall|k: int| from <= k < i ==> s@[k] != '/',
        decreases len - i,
    {
        i = i + 1;
    }
    proof {
        lemma_next_slash_found(s@, from as int, i as int);
    }
    i
}

impl PackageFileRequest {
    /// Parses `name/version/path`, where a name that starts with `@` takes
    /// two segments and the path, possibly empty, is all that follows the
    /// version.
    pub fn parse(s: &str) -> (r: Result<PackageFileRequest, PackageFileRequestParsingError>)
        ensures
            r is Ok <==> request_parses(s@),
            r matches Ok(q) ==> q.name@ == request_name(s@) && q.version@ == request_version(s@)
                && q.path@ == request_path(s@),
            r matches Err(e) ==> match e {
                PackageFileRequestParsingError::InvalidScopedName(x) => scope_incomplete(s@)
                    && x@ == first_segment(s@),
                PackageFileRequestParsingError::InvalidNameFormat(x) => name_missing(s@) && x@
                    == s@,
                PackageFileRequestParsingError::MissingVersion(x) => version_missing(s@) && x@
                    == s@,
            },
    {
        let len = s.unicode_len();
        let first_end = find_slash(s, len, 0);
        proof {
            lemma_next_slash_bounds(s@, 0);
        }
        if first_end == 0 {
            return Err(PackageFileRequestParsingError::InvalidNameFormat(s.to_owned()));
        }
        let scoped = s.get_char(0) == '@';
        let name_stop = if scoped {
            if first_end == len {
                return Err(
                    PackageFileRequestParsingError::InvalidScopedName(
                        s.substring_char(0, first_end).to_owned(),
                    ),
                );
            }
            proof {
                lemma_next_slash_bounds(s@, first_end + 1);
            }
            find_slash(s, len, first_end + 1)
        } else {
            first_end
        };
        if name_stop == len {
            return Err(PackageFileRequestParsingError::MissingVersion(s.to_owned()));
        }
        let version_stop = find_slash(s, len, name_stop + 1);
        proof {
            lemma_next_slash_bounds(s@, name_stop + 1);
        }
        if version_stop == name_stop + 1 {
            return Err(PackageFileRequestParsingError::MissingVersion(s.to_owned()));
        }
        let path = if version_stop == len {
            String::new()
        } else {
            s.substring_char(version_stop + 1, len).to_owned()
        };
        Ok(
            PackageFileRequest {
                name: s.substring_char(0, name_stop).to_owned(),
                version: s.substring_char(name_stop + 1, version_stop).to_owned(),
                path,
            },
        )
    }
}

impl std::str::FromStr for PackageFileRequest {
    type Err = PackageFileRequestParsingError;

    fn from_str(s: &str) -> Result<Self, Self::Err> {
        PackageFileRequest::parse(s)
    }
}

} // verus!
