use vstd::prelude::*;

verus! {

/// Whether a character may follow the sigil of a name: an ASCII letter, digit or underscore.
pub open spec fn is_name_char(c: char) -> bool {
    ('a' <= c && c <= 'z') || ('A' <= c && c <= 'Z') || ('0' <= c && c <= '9') || c == '_'
}

/// Whether `s` is the sigil `sigil` followed by 5 to 15 name characters.
pub open spec fn is_sigil_name(s: Seq<char>, sigil: char) -> bool {
    &&& 6 <= s.len() <= 16
    &&& s[0] == sigil
    &&& forall|i: int| 1 <= i < s.len() ==> is_name_char(#[trigger] s[i])
}

/// Whether `s` follows the rules for usernames: `@` and then 5 to 15 name characters.
pub open spec fn is_valid_username(s: Seq<char>) -> bool {
    is_sigil_name(s, '@')
}

/// Checks that `s` is `sigil` followed by 5 to 15 name characters.
pub fn check_sigil_name(s: &str, sigil: char) -> (r: bool)
    ensures
        r == is_sigil_name(s@, sigil),
{
    let n = s.unicode_len();
    if n < 6 || n > 16 {
        return false;
    }
    if s.get_char(0) != sigil {
        return false;
    }
    let mut i: usize = 1;
    while i < n
        invariant
            n == s@.len(),
            1 <= i <= n,
            forall|j: int| 1 <= j < i ==> is_name_char(#[trigger] s@[j]),
        decreases n - i,
    {
        let c = s.get_char(i);
        let ok = ('a' <= c && c <= 'z') || ('A' <= c && c <= 'Z') || ('0' <= c && c <= '9') || c
            == '_';
        if !ok {
            return false;
        }
        i = i + 1;
    }
    true
}

/// A username that matches the rules for usernames.
#[derive(Clone, Debug)]
pub struct UserName(String);

/// The error for a string that is not a valid username.
#[derive(Clone, Copy, Debug, PartialEq, Eq, Structural)]
pub struct UserNameError;

impl View for UserName {
    type V = Seq<char>;

    closed spec fn view(&self) -> Seq<char> {
        self.0@
    }
}

impl PartialEq for UserName {
    fn eq(&self, other: &Self) -> (r: bool) {
        self.0 == other.0
    }
}

impl Eq for UserName {}

impl vstd::std_specs::cmp::PartialEqSpecImpl for UserName {
    open spec fn obeys_eq_spec() -> bool {
        true
    }

    open spec fn eq_spec(&self, other: &UserName) -> bool {
        self@ == other@
    }
}

impl UserName {
    /// The type invariant: the name follows the username rules.
    pub open spec fn wf(&self) -> bool {
        is_valid_username(self@)
    }

    /// Parses a username, accepting exactly the strings that follow the rules.
    pub fn parse(username: &str) -> (r: Result<UserName, UserNameError>)
        ensures
            r is Ok <==> is_valid_username(username@),
            r matches Ok(n) ==> n@ == username@,
    {
        if !check_sigil_name(username, '@') {
            return Err(UserNameError);
        }
        Ok(UserName(username.to_owned()))
    }

    /// The placeholder username `@placeholder`.
    pub fn placeholder() -> (n: UserName)
        ensures
            n@ == "@placeholder"@,
            n.wf(),
    {
        let s = "@placeholder";
        proof {
            reveal_strlit("@placeholder");
        }
        UserName(s.to_owned())
    }

    /// The username as a string.
    pub fn as_str(&self) -> (s: &str)
        ensures
            s@ == self@,
    {
        self.0.as_str()
    }

    /// Checks a string against the username rules and takes it as a username.
    pub fn try_from_string(value: String) -> (r: Result<UserName, UserNameError>)
        ensures
            r is Ok <==> is_valid_username(value@),
            r matches Ok(n) ==> n@ == value@,
    {
        if !check_sigil_name(value.as_str(), '@') {
            return Err(UserNameError);
        }
        Ok(UserName(value))
    }

    /// Copies the username.
    pub fn duplicate(&self) -> (n: UserName)
        ensures
            n@ == self@,
    {
        UserName(self.0.clone())
    }
}

/// What the directory holds for a user: the server its mail goes to and the hash of its root
/// device key.
#[derive(Clone, Debug)]
pub struct UserDescriptor {
    pub server_name: crate::structs::server::ServerName,
    pub root_cert_hash: crate::crypt::hash::Hash,
}

} // verus!
