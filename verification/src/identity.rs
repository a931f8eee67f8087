use vstd::prelude::*;

verus! {

/// Exactly the character sequences accepted as a client key: non-empty and
/// made of visible ASCII characters only — the shape of an address-like
/// header value. Anything else falls back to the sentinel key.
pub open spec fn valid_key_chars(s: Seq<char>) -> bool {
    0 < s.len() && forall|i: int| 0 <= i < s.len() ==> '!' <= #[trigger] s[i] <= '~'
}

/// The view of the sentinel key shared by all unattributable requests.
pub open spec fn spec_unknown_key() -> Seq<char> {
    "unknown"@
}

/// A validated, normalized client identity, produced only by this module.
/// Two keys denote the same client exactly when their views are equal
/// character for character.
pub struct ClientKey {
    key: String,
}

impl View for ClientKey {
    type V = Seq<char>;

    closed spec fn view(&self) -> Seq<char> {
        self.key@
    }
}

impl ClientKey {
    /// Every key ever constructed is either a validated address-like string
    /// or the sentinel; both satisfy the validity predicate.
    pub open spec fn wf(self) -> bool {
        valid_key_chars(self@)
    }

    /// Validates an arbitrary string as a client key.
    pub fn new(s: &str) -> (r: Option<ClientKey>)
        ensures
            match r {
                Some(k) => valid_key_chars(s@) && k@ == s@ && k.wf(),
                None => !valid_key_chars(s@),
            },
    {
        if key_chars_valid(s) {
            Some(ClientKey { key: s.to_owned() })
        } else {
            None
        }
    }

    /// The key's characters, e.g. for logging or a response header.
    pub fn as_str(&self) -> (r: &str)
        ensures
            r@ == self@,
    {
        self.key.as_str()
    }

    /// A copy of the key denoting the same client.
    pub fn duplicate(&self) -> (r: ClientKey)
        ensures
            r@ == self@,
    {
        ClientKey { key: self.key.clone() }
    }

    /// Whether two keys denote the same client.
    pub fn same_client(&self, other: &ClientKey) -> (r: bool)
        ensures
            r == (self@ == other@),
    {
        self.key == other.key
    }
}

/// The sentinel key shared by all requests whose metadata yields no usable
/// client address. Such requests share one bucket.
pub fn unknown_key() -> (k: ClientKey)
    ensures
        k@ == spec_unknown_key(),
        k.wf(),
{
    proof {
        reveal_strlit("unknown");
    }
    ClientKey { key: "unknown".to_owned() }
}

/// Checks a candidate string against the key validity predicate.
pub fn key_chars_valid(s: &str) -> (r: bool)
    ensures
        r == valid_key_chars(s@),
{
    let len = s.unicode_len();
    if len == 0 {
        return false;
    }
    let mut i: usize = 0;
    while i < len
        invariant
            i <= len,
            len == s@.len(),
            forall|j: int| 0 <= j < i ==> '!' <= #[trigger] s@[j] <= '~',
        decreases len - i,
    {
        let c = s.get_char(i);
        if c < '!' || c > '~' {
            return false;
        }
        i += 1;
    }
    true
}

/// The key the extractor derives from the two address-bearing header values
/// of a request: the forwarded client address when valid, else the direct
/// peer address when valid, else the sentinel.
pub open spec fn spec_extracted_key(forwarded: Option<&str>, peer: Option<&str>) -> Seq<char> {
    match forwarded {
        Some(f) => if valid_key_chars(f@) {
            f@
        } else {
            spec_fallback_key(peer)
        },
        None => spec_fallback_key(peer),
    }
}

/// The extractor's second and third choices: the direct peer address when
/// valid, else the sentinel.
pub open spec fn spec_fallback_key(peer: Option<&str>) -> Seq<char> {
    match peer {
        Some(r) => if valid_key_chars(r@) {
            r@
        } else {
            spec_unknown_key()
        },
        None => spec_unknown_key(),
    }
}

/// Derives the client identity from request metadata, by precedence: the
/// forwarded-client-address value if present and valid, else the
/// peer-client-address value if present and valid, else the shared sentinel.
/// Malformed metadata is recovered locally; extraction never fails.
pub fn extract_client_key(forwarded: Option<&str>, peer: Option<&str>) -> (k: ClientKey)
    ensures
        k@ == spec_extracted_key(forwarded, peer),
        k.wf(),
{
    proof {
        reveal_strlit("unknown");
    }
    match forwarded {
        Some(f) => {
            if key_chars_valid(f) {
                ClientKey { key: f.to_owned() }
            } else {
                extract_fallback_key(peer)
            }
        },
        None => extract_fallback_key(peer),
    }
}

/// The fallback half of extraction: the direct peer address or the sentinel.
fn extract_fallback_key(peer: Option<&str>) -> (k: ClientKey)
    ensures
        k@ == spec_fallback_key(peer),
        k.wf(),
{
    match peer {
        Some(r) => {
            if key_chars_valid(r) {
                ClientKey { key: r.to_owned() }
            } else {
                unknown_key()
            }
        },
        None => unknown_key(),
    }
}

} // verus!
