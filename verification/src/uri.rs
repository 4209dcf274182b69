use vstd::prelude::*;

verus! {

/// Mathematical value of a target URI: exactly the components that the
/// validation policy and the engine read.
pub ghost struct UriView {
    pub scheme: Seq<char>,
    pub username: Seq<char>,
    pub path: Seq<char>,
    pub has_query: bool,
    pub has_fragment: bool,
    pub has_password: bool,
    /// The full serialized form, used for display and transport.
    pub serialized: Seq<char>,
}

/// An absolute URI, broken into the components the policy inspects.
///
/// Values are usually obtained from [`parse_uri`], which delegates the
/// parsing itself to the `url` crate; they can also be assembled directly
/// from their components with [`Uri::from_parts`].
#[derive(Debug)]
pub struct Uri {
    scheme: String,
    username: String,
    path: String,
    has_query: bool,
    has_fragment: bool,
    has_password: bool,
    serialized: String,
}

impl View for Uri {
    type V = UriView;

    closed spec fn view(&self) -> UriView {
        UriView {
            scheme: self.scheme@,
            username: self.username@,
            path: self.path@,
            has_query: self.has_query,
            has_fragment: self.has_fragment,
            has_password: self.has_password,
            serialized: self.serialized@,
        }
    }
}

impl Clone for Uri {
    fn clone(&self) -> (res: Self)
        ensures
            res@ == self@,
    {
        Uri {
            scheme: self.scheme.clone(),
            username: self.username.clone(),
            path: self.path.clone(),
            has_query: self.has_query,
            has_fragment: self.has_fragment,
            has_password: self.has_password,
            serialized: self.serialized.clone(),
        }
    }
}

/// The syntactic policy on target URIs: the secure HTTP scheme exactly, no
/// query, no fragment, no user name, no password, and a path that does not
/// end in a path separator.
pub open spec fn valid_uri_spec(u: UriView) -> bool {
    &&& u.scheme == "https"@
    &&& !u.has_query
    &&& !u.has_fragment
    &&& u.username.len() == 0
    &&& !u.has_password
    &&& !(u.path.len() > 0 && u.path.last() == '/')
}

impl Uri {
    /// Assemble a URI value directly from its components.
    pub fn from_parts(
        scheme: String,
        username: String,
        path: String,
        has_query: bool,
        has_fragment: bool,
        has_password: bool,
        serialized: String,
    ) -> (r: Uri)
        ensures
            r@ == (UriView {
                scheme: scheme@,
                username: username@,
                path: path@,
                has_query,
                has_fragment,
                has_password,
                serialized: serialized@,
            }),
    {
        Uri { scheme, username, path, has_query, has_fragment, has_password, serialized }
    }

    /// The full serialized form.
    pub fn as_string(&self) -> (r: &String)
        ensures
            r@ == self@.serialized,
    {
        &self.serialized
    }

    /// Whether the two URIs agree in every component.
    pub fn same_as(&self, other: &Uri) -> (r: bool)
        ensures
            r == (self@ == other@),
    {
        let r = self.scheme == other.scheme && self.username == other.username
            && self.path == other.path && self.has_query == other.has_query
            && self.has_fragment == other.has_fragment
            && self.has_password == other.has_password
            && self.serialized == other.serialized;
        proof {
            if r {
                assert(self@ =~= other@);
            }
        }
        r
    }

    /// Whether the URI meets the validation policy.
    pub fn is_valid(&self) -> (r: bool)
        ensures
            r == valid_uri_spec(self@),
    {
        let https: String = "https".to_owned();
        let path_len = self.path.as_str().unicode_len();
        let trailing_sep = path_len > 0 && self.path.as_str().get_char(path_len - 1) == '/';
        self.scheme == https && !self.has_query && !self.has_fragment
            && self.username.as_str().is_empty() && !self.has_password && !trailing_sep
    }
}

/// What `url::Url::parse` returns for a given string: nothing, or the
/// components of the parsed URL. Parsing is a function of the string alone.
pub uninterp spec fn parse_of(s: Seq<char>) -> Option<UriView>;

/// Relies on `url::Url::parse` and its component accessors (`scheme`,
/// `username`, `path`, `query`, `fragment`, `password`, `as_str`): parsing
/// depends on the string alone, and either fails or yields an absolute URL
/// whose scheme is non-empty.
#[verifier::external_body]
pub(crate) fn parse_uri(s: &str) -> (r: Option<Uri>)
    ensures
        r matches Some(u) ==> parse_of(s@) == Some(u@) && u@.scheme.len() > 0,
        r is None ==> parse_of(s@) is None,
{
    let u = url::Url::parse(s).ok()?;
    Some(Uri {
        scheme: u.scheme().to_owned(),
        username: u.username().to_owned(),
        path: u.path().to_owned(),
        has_query: u.query().is_some(),
        has_fragment: u.fragment().is_some(),
        has_password: u.password().is_some(),
        serialized: u.as_str().to_owned(),
    })
}

} // verus!
