//! The OAuth 1.0a PIN flow: a request token, the authorize URL the user opens, and
//! the exchange of the PIN for an access token pair.
use vstd::prelude::*;
use vstd::utf8::encode_utf8;

use crate::text::{chars_of, string_of_prefix, string_of_suffix, trim_slashes, trim_trailing_slashes};

verus! {

/// `reqwest::Error`, carried through as it is.
#[verifier::external_type_specification]
#[verifier::external_body]
pub struct ExReqwestError(reqwest::Error);

/// Why a step of the PIN flow failed.
#[derive(Debug)]
pub enum OAuthError {
    Http(reqwest::Error),
    Protocol(String),
}

// ---------------------------------------------------------------- form bodies

/// The pieces of `s` between the separators, as `str::split` gives them.
pub open spec fn split_on(s: Seq<char>, sep: char) -> Seq<Seq<char>>
    decreases s.len(),
{
    if s.len() == 0 {
        seq![Seq::empty()]
    } else {
        let pieces = split_on(s.drop_last(), sep);
        if s.last() == sep {
            pieces.push(Seq::empty())
        } else {
            pieces.update(pieces.len() - 1, pieces.last().push(s.last()))
        }
    }
}

/// The position of the first `c` in `s`, or -1 when there is none.
pub open spec fn first_index(s: Seq<char>, c: char) -> int
    decreases s.len(),
{
    if s.len() == 0 {
        -1
    } else if first_index(s.drop_last(), c) >= 0 {
        first_index(s.drop_last(), c)
    } else if s.last() == c {
        s.len() - 1
    } else {
        -1
    }
}

/// A `key=value` piece split at its first `=`; none for a piece without one.
pub open spec fn key_value(piece: Seq<char>) -> Option<(Seq<char>, Seq<char>)> {
    let i = first_index(piece, '=');
    if i >= 0 {
        Some((piece.take(i), piece.skip(i + 1)))
    } else {
        None
    }
}

/// The `key=value` pairs of some pieces, in order.
pub open spec fn pairs_of(pieces: Seq<Seq<char>>) -> Seq<(Seq<char>, Seq<char>)>
    decreases pieces.len(),
{
    if pieces.len() == 0 {
        Seq::empty()
    } else {
        let before = pairs_of(pieces.drop_last());
        match key_value(pieces.last()) {
            Some(kv) => before.push(kv),
            None => before,
        }
    }
}

/// The pairs of a form-encoded body `k1=v1&k2=v2…`, in order.
pub open spec fn form_pairs(body: Seq<char>) -> Seq<(Seq<char>, Seq<char>)> {
    pairs_of(split_on(body, '&'))
}

/// The value of a key: the last pair with that key wins.
pub open spec fn form_value(pairs: Seq<(Seq<char>, Seq<char>)>, key: Seq<char>) -> Option<
    Seq<char>,
>
    decreases pairs.len(),
{
    if pairs.len() == 0 {
        None
    } else if pairs.last().0 == key {
        Some(pairs.last().1)
    } else {
        form_value(pairs.drop_last(), key)
    }
}

proof fn lemma_split_nonempty(s: Seq<char>, sep: char)
    ensures
        split_on(s, sep).len() >= 1,
    decreases s.len(),
{
    if s.len() > 0 {
        lemma_split_nonempty(s.drop_last(), sep);
    }
}

proof fn lemma_first_index(s: Seq<char>, c: char)
    ensures
        -1 <= first_index(s, c) < s.len(),
        first_index(s, c) >= 0 ==> s[first_index(s, c)] == c,
        forall|i: int|
            0 <= i < s.len() && (first_index(s, c) < 0 || i < first_index(s, c)) ==> s[i] != c,
    decreases s.len(),
{
    if s.len() > 0 {
        lemma_first_index(s.drop_last(), c);
        assert forall|i: int|
            0 <= i < s.len() && (first_index(s, c) < 0 || i < first_index(s, c)) implies s[i]
            != c by {
            if i < s.len() - 1 {
                assert(s.drop_last()[i] == s[i]);
            }
        }
    }
}

/// The pieces of `chars` between the separators.
fn split_chars(chars: &Vec<char>, sep: char) -> (pieces: Vec<Vec<char>>)
    ensures
        pieces@.map_values(|p: Vec<char>| p@) == split_on(chars@, sep),
{
    let mut pieces: Vec<Vec<char>> = Vec::new();
    pieces.push(Vec::new());
    proof {
        assert(pieces@.map_values(|p: Vec<char>| p@) =~= split_on(chars@.take(0), sep));
    }
    for i in 0..chars.len()
        invariant
            pieces@.map_values(|p: Vec<char>| p@) == split_on(chars@.take(i as int), sep),
    {
        let c = chars[i];
        let ghost before = pieces@.map_values(|p: Vec<char>| p@);
        proof {
            assert(chars@.take(i + 1).drop_last() =~= chars@.take(i as int));
            lemma_split_nonempty(chars@.take(i as int), sep);
        }
        if c == sep {
            pieces.push(Vec::new());
        } else {
            let mut last = pieces.pop().unwrap();
            last.push(c);
            pieces.push(last);
        }
        proof {
            assert(pieces@.map_values(|p: Vec<char>| p@) =~= split_on(chars@.take(i + 1), sep));
        }
    }
    proof {
        assert(chars@.take(chars@.len() as int) =~= chars@);
    }
    pieces
}

/// A `key=value` piece split at its first `=`.
fn split_pair(piece: &Vec<char>) -> (kv: Option<(String, String)>)
    ensures
        match kv {
            Some((k, v)) => key_value(piece@) == Some((k@, v@)),
            None => key_value(piece@) is None,
        },
{
    let mut i: usize = 0;
    while i < piece.len() && piece[i] != '='
        invariant
            i <= piece@.len(),
            forall|j: int| 0 <= j < i ==> piece@[j] != '=',
        decreases piece@.len() - i,
    {
        i = i + 1;
    }
    proof {
        lemma_first_index(piece@, '=');
    }
    if i == piece.len() {
        proof {
            if first_index(piece@, '=') >= 0 {
                assert(piece@[first_index(piece@, '=')] == '=');
            }
        }
        None
    } else {
        proof {
            assert(first_index(piece@, '=') == i) by {
                if first_index(piece@, '=') < 0 || i < first_index(piece@, '=') {
                    assert(piece@[i as int] != '=');
                }
                if first_index(piece@, '=') >= 0 && first_index(piece@, '=') < i {
                    assert(piece@[first_index(piece@, '=')] == '=');
                }
            }
        }
        Some((string_of_prefix(piece.as_slice(), i), string_of_suffix(piece.as_slice(), i + 1)))
    }
}

/// The `key=value` pairs of a form-encoded body, in order.
pub fn form_params(body: &str) -> (pairs: Vec<(String, String)>)
    ensures
        pairs@.map_values(|p: (String, String)| (p.0@, p.1@)) == form_pairs(body@),
{
    let chars = chars_of(body);
    let pieces = split_chars(&chars, '&');
    let ghost ps = pieces@.map_values(|p: Vec<char>| p@);
    let mut pairs: Vec<(String, String)> = Vec::new();
    for i in 0..pieces.len()
        invariant
            ps == pieces@.map_values(|p: Vec<char>| p@),
            pairs@.map_values(|p: (String, String)| (p.0@, p.1@)) == pairs_of(ps.take(i as int)),
    {
        proof {
            assert(ps.take(i + 1).drop_last() =~= ps.take(i as int));
            assert(ps[i as int] == pieces@[i as int]@);
        }
        match split_pair(&pieces[i]) {
            Some(kv) => pairs.push(kv),
            None => {},
        }
        proof {
            assert(pairs@.map_values(|p: (String, String)| (p.0@, p.1@)) =~= pairs_of(
                ps.take(i + 1),
            ));
        }
    }
    proof {
        assert(ps.take(pieces@.len() as int) =~= ps);
    }
    pairs
}

/// The value of a key among form pairs; the last pair with the key wins.
pub fn form_lookup(pairs: &Vec<(String, String)>, key: &str) -> (value: Option<String>)
    ensures
        match value {
            Some(v) => form_value(pairs@.map_values(|p: (String, String)| (p.0@, p.1@)), key@)
                == Some(v@),
            None => form_value(pairs@.map_values(|p: (String, String)| (p.0@, p.1@)), key@) is None,
        },
{
    let ghost all = pairs@.map_values(|p: (String, String)| (p.0@, p.1@));
    let wanted = String::from_str(key);
    let mut i: usize = pairs.len();
    proof {
        assert(all.take(i as int) =~= all);
    }
    while i > 0
        invariant
            i <= pairs@.len(),
            wanted@ == key@,
            all == pairs@.map_values(|p: (String, String)| (p.0@, p.1@)),
            form_value(all, key@) == form_value(all.take(i as int), key@),
        decreases i,
    {
        proof {
            assert(all.take(i as int).drop_last() =~= all.take(i - 1));
            assert(all.take(i as int).last() == all[i - 1]);
            assert(all[i - 1] == (pairs@[i - 1].0@, pairs@[i - 1].1@));
        }
        if pairs[i - 1].0 == wanted {
            proof {
                assert(all[i - 1] == (pairs@[i - 1].0@, pairs@[i - 1].1@));
            }
            return Some(pairs[i - 1].1.clone());
        }
        i = i - 1;
    }
    None
}

// ---------------------------------------------------------------- the flow

// ---------------------------------------------------------------- the Authorization header

/// A byte that OAuth parameter encoding keeps as it is: an ASCII letter or digit,
/// `-`, `.`, `_` or `~`, the unreserved characters of RFC 3986.
pub open spec fn is_unreserved(b: u8) -> bool {
    ||| 0x30 <= b <= 0x39
    ||| 0x41 <= b <= 0x5A
    ||| 0x61 <= b <= 0x7A
    ||| b == 0x2D || b == 0x2E || b == 0x5F || b == 0x7E
}

/// The upper-case hexadecimal digit of `n`, for `n` below 16.
pub open spec fn hex_digit(n: int) -> char {
    if n < 10 {
        (n + 0x30) as char
    } else {
        (n - 10 + 0x41) as char
    }
}

/// One byte as OAuth parameter encoding writes it: itself when it is unreserved,
/// otherwise `%` and its two upper-case hexadecimal digits.
pub open spec fn encoded_byte(b: u8) -> Seq<char> {
    if is_unreserved(b) {
        seq![b as char]
    } else {
        seq!['%', hex_digit(b as int / 16), hex_digit(b as int % 16)]
    }
}

/// Bytes as OAuth parameter encoding writes them, one after the other.
pub open spec fn encoded_bytes(bytes: Seq<u8>) -> Seq<char>
    decreases bytes.len(),
{
    if bytes.len() == 0 {
        Seq::empty()
    } else {
        encoded_bytes(bytes.drop_last()) + encoded_byte(bytes.last())
    }
}

/// A parameter value as OAuth encodes it: each byte of its UTF-8 form encoded.
pub open spec fn oauth_encoded(value: Seq<char>) -> Seq<char> {
    encoded_bytes(encode_utf8(value))
}

/// A field of the header: the name, `="`, the encoded value and `"`.
pub open spec fn header_field(key: Seq<char>, value: Seq<char>) -> Seq<char> {
    key + "=\""@ + oauth_encoded(value) + "\""@
}

/// `part` occurs somewhere in `text`.
pub open spec fn occurs_in(part: Seq<char>, text: Seq<char>) -> bool {
    exists|i: int|
        0 <= i && i + part.len() <= text.len() && #[trigger] text.subrange(i, i + part.len())
            == part
}

/// The header holds the field `key="value"`.
pub open spec fn has_field(header: Seq<char>, key: Seq<char>, value: Seq<char>) -> bool {
    occurs_in(header_field(key, value), header)
}

/// A header signed with this consumer key by HMAC-SHA1 under OAuth 1.0: it
/// starts with `OAuth ` and holds the fields that name the key, the method and the
/// version.
pub open spec fn signed_with(header: Seq<char>, consumer_key: Seq<char>) -> bool {
    &&& "OAuth "@.is_prefix_of(header)
    &&& has_field(header, "oauth_consumer_key"@, consumer_key)
    &&& has_field(header, "oauth_signature_method"@, "HMAC-SHA1"@)
    &&& has_field(header, "oauth_version"@, "1.0"@)
}

/// The names the signer sets itself, over a parameter of the same name.
pub open spec fn set_by_signer(key: Seq<char>) -> bool {
    ||| key == "oauth_consumer_key"@
    ||| key == "oauth_nonce"@
    ||| key == "oauth_signature_method"@
    ||| key == "oauth_timestamp"@
    ||| key == "oauth_version"@
    ||| key == "oauth_token"@
    ||| key == "oauth_signature"@
}

/// The parameters as pairs of character sequences.
pub open spec fn param_views(params: Seq<(&str, &str)>) -> Seq<(Seq<char>, Seq<char>)> {
    params.map_values(|p: (&str, &str)| (p.0@, p.1@))
}

/// The parameter at `i` goes into the header as given: its name starts with
/// `oauth_`, the signer does not set it, and no other parameter has its name.
pub open spec fn carried(params: Seq<(Seq<char>, Seq<char>)>, i: int) -> bool {
    &&& "oauth_"@.is_prefix_of(params[i].0)
    &&& !set_by_signer(params[i].0)
    &&& forall|j: int| 0 <= j < params.len() && j != i ==> #[trigger] params[j].0 != params[i].0
}

/// Names the signature that `oauth1::authorize` computes for a request: HMAC-SHA1
/// over the method, the URI and the sorted, percent-encoded parameters (those
/// given, with the consumer key, the nonce, the signature method, the timestamp,
/// the version and the token's key), keyed by the encoded consumer secret and
/// token secret, then written in base64.
pub uninterp spec fn oauth_signature(
    method: Seq<char>,
    uri: Seq<char>,
    consumer_key: Seq<char>,
    consumer_secret: Seq<char>,
    token: Option<(Seq<char>, Seq<char>)>,
    params: Seq<(Seq<char>, Seq<char>)>,
    nonce: Seq<char>,
    timestamp: Seq<char>,
) -> Seq<char>;

/// A token pair as a pair of character sequences.
pub open spec fn token_views(token: Option<(&str, &str)>) -> Option<(Seq<char>, Seq<char>)> {
    match token {
        Some((key, secret)) => Some((key@, secret@)),
        None => None,
    }
}

/// The header carries a nonce, a timestamp and the signature of the request made
/// with them: the given method and URI, signed with the consumer key pair, the
/// token pair when there is one, and the parameters.
pub open spec fn signs_request(
    header: Seq<char>,
    method: Seq<char>,
    uri: Seq<char>,
    consumer: (Seq<char>, Seq<char>),
    token: Option<(Seq<char>, Seq<char>)>,
    params: Seq<(Seq<char>, Seq<char>)>,
) -> bool {
    exists|nonce: Seq<char>, timestamp: Seq<char>|
        {
            &&& has_field(header, "oauth_nonce"@, nonce)
            &&& has_field(header, "oauth_timestamp"@, timestamp)
            &&& has_field(
                header,
                "oauth_signature"@,
                #[trigger] oauth_signature(
                    method,
                    uri,
                    consumer.0,
                    consumer.1,
                    token,
                    params,
                    nonce,
                    timestamp,
                ),
            )
        }
}

/// A header that names a nonce, a timestamp and the signature made with them
/// signs the request.
proof fn lemma_signs_request(
    header: Seq<char>,
    method: Seq<char>,
    uri: Seq<char>,
    consumer: (Seq<char>, Seq<char>),
    token: Option<(Seq<char>, Seq<char>)>,
    params: Seq<(Seq<char>, Seq<char>)>,
    nonce: Seq<char>,
    timestamp: Seq<char>,
)
    requires
        has_field(header, "oauth_nonce"@, nonce),
        has_field(header, "oauth_timestamp"@, timestamp),
        has_field(
            header,
            "oauth_signature"@,
            oauth_signature(method, uri, consumer.0, consumer.1, token, params, nonce, timestamp),
        ),
    ensures
        signs_request(header, method, uri, consumer, token, params),
{
}

/// Calls `oauth1::authorize`, which builds the `Authorization` header of a request
/// signed with the consumer key pair and, when given, the token pair: `OAuth ` and
/// then, sorted and separated by `, `, a field `name="value"` with the value
/// percent-encoded (all but ASCII letters, digits and `-._~`) for each parameter
/// whose name starts with `oauth_`. The fields it sets itself are the consumer key,
/// the signature method `HMAC-SHA1`, the version `1.0`, the token's key when there
/// is a token, a nonce, a timestamp, and the signature of the request over them
/// (named by `oauth_signature`); the other `oauth_` parameters are passed through.
/// Which nonce and timestamp it picks comes from chance and the clock, so it is
/// stated only that the header carries some nonce and timestamp and the signature
/// made with them; the order of the fields is not stated either.
#[verifier::external_body]
fn oauth_header(
    method: &str,
    uri: &str,
    consumer_key: &str,
    consumer_secret: &str,
    token: Option<(&str, &str)>,
    params: &[(&str, &str)],
) -> (header: String)
    ensures
        signed_with(header@, consumer_key@),
        exists|nonce: Seq<char>, timestamp: Seq<char>|
            {
                &&& has_field(header@, "oauth_nonce"@, nonce)
                &&& has_field(header@, "oauth_timestamp"@, timestamp)
                &&& has_field(
                    header@,
                    "oauth_signature"@,
                    #[trigger] oauth_signature(
                        method@,
                        uri@,
                        consumer_key@,
                        consumer_secret@,
                        token_views(token),
                        param_views(params@),
                        nonce,
                        timestamp,
                    ),
                )
            },
        match token {
            Some((key, _)) => has_field(header@, "oauth_token"@, key@),
            None => true,
        },
        forall|i: int|
            0 <= i < params@.len() && carried(param_views(params@), i) ==> has_field(
                header@,
                (#[trigger] params@[i]).0@,
                params@[i].1@,
            ),
{
    let consumer = oauth1::Token::new(consumer_key, consumer_secret);
    let token = token.map(|(key, secret)| oauth1::Token::new(key, secret));
    let params: std::collections::HashMap<&str, std::borrow::Cow<str>> =
        params.iter().map(|&(k, v)| (k, std::borrow::Cow::Borrowed(v))).collect();
    oauth1::authorize(method, uri, &consumer, token.as_ref(), Some(params))
}

/// The parameters of the PIN flow go into the header as given.
proof fn lemma_flow_parameters(value: Seq<char>)
    ensures
        carried(seq![("oauth_callback"@, value)], 0),
        carried(seq![("oauth_verifier"@, value)], 0),
{
    reveal_strlit("oauth_");
    reveal_strlit("oauth_callback");
    reveal_strlit("oauth_verifier");
    reveal_strlit("oauth_consumer_key");
    reveal_strlit("oauth_nonce");
    reveal_strlit("oauth_signature_method");
    reveal_strlit("oauth_timestamp");
    reveal_strlit("oauth_version");
    reveal_strlit("oauth_token");
    reveal_strlit("oauth_signature");
    assert("oauth_"@ =~= "oauth_callback"@.take(6));
    assert("oauth_"@ =~= "oauth_verifier"@.take(6));
}

/// The signed `Authorization` header of a GET of `url` with the given query, made
/// with the consumer key pair and the access token pair: it names the consumer key
/// and the access token, signs the GET over them, and carries every `oauth_`
/// parameter of the query that the signer does not set itself.
pub fn get_authorization(
    url: &str,
    consumer_key: &str,
    consumer_secret: &str,
    access_token: &str,
    access_token_secret: &str,
    query: &[(&str, &str)],
) -> (header: String)
    ensures
        signed_with(header@, consumer_key@),
        signs_request(
            header@,
            "GET"@,
            url@,
            (consumer_key@, consumer_secret@),
            Some((access_token@, access_token_secret@)),
            param_views(query@),
        ),
        has_field(header@, "oauth_token"@, access_token@),
        forall|i: int|
            0 <= i < query@.len() && carried(param_views(query@), i) ==> has_field(
                header@,
                (#[trigger] query@[i]).0@,
                query@[i].1@,
            ),
{
    let header = oauth_header(
        "GET",
        url,
        consumer_key,
        consumer_secret,
        Some((access_token, access_token_secret)),
        query,
    );
    proof {
        assert(token_views(Some((access_token, access_token_secret))) == Some(
            (access_token@, access_token_secret@),
        ));
        let (nonce, timestamp) = choose|nonce: Seq<char>, timestamp: Seq<char>|
            {
                &&& has_field(header@, "oauth_nonce"@, nonce)
                &&& has_field(header@, "oauth_timestamp"@, timestamp)
                &&& has_field(
                    header@,
                    "oauth_signature"@,
                    oauth_signature("GET"@, url@, consumer_key@, consumer_secret@, Some((access_token@, access_token_secret@)), param_views(query@), nonce, timestamp),
                )
            };
        lemma_signs_request(
            header@,
            "GET"@,
            url@,
            (consumer_key@, consumer_secret@),
            Some((access_token@, access_token_secret@)),
            param_views(query@),
            nonce,
            timestamp,
        );
    }
    header
}

/// The state of a PIN flow: the consumer key pair, the endpoints under the OAuth
/// base URL, and the request token once one was granted.
pub struct PinFlow {
    consumer_key: String,
    consumer_secret: String,
    request_token: Option<(String, String)>,
    request_token_endpoint: String,
    authorize_endpoint: String,
    access_token_endpoint: String,
}

/// An endpoint under a base URL: the base without its trailing slashes, then the
/// path.
pub open spec fn endpoint(base_url: Seq<char>, path: Seq<char>) -> Seq<char> {
    trim_trailing_slashes(base_url) + path
}

impl PinFlow {
    pub closed spec fn consumer(&self) -> (Seq<char>, Seq<char>) {
        (self.consumer_key@, self.consumer_secret@)
    }

    /// The request token pair granted so far.
    pub closed spec fn request_token(&self) -> Option<(Seq<char>, Seq<char>)> {
        match self.request_token {
            Some((k, s)) => Some((k@, s@)),
            None => None,
        }
    }

    pub closed spec fn request_token_url(&self) -> Seq<char> {
        self.request_token_endpoint@
    }

    pub closed spec fn authorize_url_base(&self) -> Seq<char> {
        self.authorize_endpoint@
    }

    pub closed spec fn access_token_url(&self) -> Seq<char> {
        self.access_token_endpoint@
    }

    /// A flow against the OAuth endpoints under `base_url`, with no request token yet.
    pub fn for_endpoints(base_url: &str, consumer_key: &str, consumer_secret: &str) -> (flow:
        PinFlow)
        ensures
            flow.consumer() == (consumer_key@, consumer_secret@),
            flow.request_token() is None,
            flow.request_token_url() == endpoint(base_url@, "/request_token"@),
            flow.authorize_url_base() == endpoint(base_url@, "/authorize"@),
            flow.access_token_url() == endpoint(base_url@, "/access_token"@),
    {
        let base = trim_slashes(base_url);
        let mut request_token_endpoint = base.clone();
        request_token_endpoint.append("/request_token");
        let mut authorize_endpoint = base.clone();
        authorize_endpoint.append("/authorize");
        let mut access_token_endpoint = base;
        access_token_endpoint.append("/access_token");
        PinFlow {
            consumer_key: String::from_str(consumer_key),
            consumer_secret: String::from_str(consumer_secret),
            request_token: None,
            request_token_endpoint,
            authorize_endpoint,
            access_token_endpoint,
        }
    }

    /// Where the request token is asked for.
    pub fn request_token_endpoint(&self) -> (url: &String)
        ensures
            url@ == self.request_token_url(),
    {
        &self.request_token_endpoint
    }

    /// Where the PIN is exchanged for the access token pair.
    pub fn access_token_endpoint(&self) -> (url: &String)
        ensures
            url@ == self.access_token_url(),
    {
        &self.access_token_endpoint
    }

    /// The signed `Authorization` header of the POST to the request-token
    /// endpoint: signed with the consumer key pair, with no token, and with the
    /// out-of-band callback `oob`.
    pub fn request_token_authorization(&self) -> (header: String)
        ensures
            signed_with(header@, self.consumer().0),
            signs_request(
                header@,
                "POST"@,
                self.request_token_url(),
                self.consumer(),
                None,
                seq![("oauth_callback"@, "oob"@)],
            ),
            has_field(header@, "oauth_callback"@, "oob"@),
    {
        let params: [(&str, &str); 1] = [("oauth_callback", "oob")];
        proof {
            lemma_flow_parameters("oob"@);
            assert(param_views(params@) =~= seq![("oauth_callback"@, "oob"@)]);
            assert(params@[0].0@ == "oauth_callback"@);
        }
        let header = oauth_header(
            "POST",
            self.request_token_endpoint.as_str(),
            self.consumer_key.as_str(),
            self.consumer_secret.as_str(),
            None,
            &params,
        );
        proof {
            assert(token_views(None) == None::<(Seq<char>, Seq<char>)>);
            let (nonce, timestamp) = choose|nonce: Seq<char>, timestamp: Seq<char>|
            {
                &&& has_field(header@, "oauth_nonce"@, nonce)
                &&& has_field(header@, "oauth_timestamp"@, timestamp)
                &&& has_field(
                    header@,
                    "oauth_signature"@,
                    oauth_signature("POST"@, self.request_token_url(), self.consumer().0, self.consumer().1, None, seq![("oauth_callback"@, "oob"@)], nonce, timestamp),
                )
            };
            lemma_signs_request(
                header@,
                "POST"@,
                self.request_token_url(),
                self.consumer(),
                None,
                seq![("oauth_callback"@, "oob"@)],
                nonce,
                timestamp,
            );
        }
        header
    }

    /// Takes the request token pair from the body of the request-token response and
    /// gives the URL where the user authorizes it. A body without `oauth_token` or
    /// without `oauth_token_secret` is a protocol error, and the flow is unchanged.
    pub fn accept_request_token(&mut self, body: &str) -> (url: Result<String, OAuthError>)
        ensures
            ({
                let pairs = form_pairs(body@);
                match form_value(pairs, "oauth_token"@) {
                    None => url matches Err(OAuthError::Protocol(m)) && m@ == "missing oauth_token"@
                        && final(self).request_token() == old(self).request_token(),
                    Some(token) => match form_value(pairs, "oauth_token_secret"@) {
                        None => url matches Err(OAuthError::Protocol(m)) && m@
                            == "missing oauth_token_secret"@ && final(self).request_token() == old(
                            self,
                        ).request_token(),
                        Some(secret) => url matches Ok(u) && u@ == old(self).authorize_url_base()
                            + "?oauth_token="@ + token && final(self).request_token() == Some(
                            (token, secret),
                        ),
                    },
                }
            }),
            final(self).consumer() == old(self).consumer(),
            final(self).request_token_url() == old(self).request_token_url(),
            final(self).authorize_url_base() == old(self).authorize_url_base(),
            final(self).access_token_url() == old(self).access_token_url(),
    {
        let (token, secret) = match token_pair(body) {
            Ok(pair) => pair,
            Err(e) => {
                return Err(e);
            },
        };
        let mut url = self.authorize_endpoint.clone();
        url.append("?oauth_token=");
        url.append(token.as_str());
        self.request_token = Some((token, secret));
        Ok(url)
    }

    /// The signed `Authorization` header of the POST to the access-token endpoint:
    /// signed with the consumer key pair and the request token pair, naming the
    /// request token and carrying the PIN as verifier; a protocol error before a
    /// request token was granted.
    pub fn access_token_authorization(&self, pin: &str) -> (header: Result<String, OAuthError>)
        ensures
            match self.request_token() {
                None => header matches Err(OAuthError::Protocol(m)) && m@
                    == "no request token; call authorize_url first"@,
                Some((token, secret)) => header matches Ok(h) && signed_with(
                    h@,
                    self.consumer().0,
                ) && signs_request(
                    h@,
                    "POST"@,
                    self.access_token_url(),
                    self.consumer(),
                    Some((token, secret)),
                    seq![("oauth_verifier"@, pin@)],
                ) && has_field(h@, "oauth_token"@, token) && has_field(
                    h@,
                    "oauth_verifier"@,
                    pin@,
                ),
            },
    {
        match &self.request_token {
            None => Err(OAuthError::Protocol(String::from_str("no request token; call authorize_url first"))),
            Some((key, secret)) => {
                let params: [(&str, &str); 1] = [("oauth_verifier", pin)];
                proof {
                    lemma_flow_parameters(pin@);
                    assert(param_views(params@) =~= seq![("oauth_verifier"@, pin@)]);
                    assert(params@[0].0@ == "oauth_verifier"@);
                }
                let token: Option<(&str, &str)> = Some((key.as_str(), secret.as_str()));
                let header = oauth_header(
                    "POST",
                    self.access_token_endpoint.as_str(),
                    self.consumer_key.as_str(),
                    self.consumer_secret.as_str(),
                    token,
                    &params,
                );
                proof {
                    assert(token_views(token) == Some((key@, secret@)));
                    assert(self.request_token() == Some((key@, secret@)));
                    let (nonce, timestamp) = choose|nonce: Seq<char>, timestamp: Seq<char>|
            {
                &&& has_field(header@, "oauth_nonce"@, nonce)
                &&& has_field(header@, "oauth_timestamp"@, timestamp)
                &&& has_field(
                    header@,
                    "oauth_signature"@,
                    oauth_signature("POST"@, self.access_token_url(), self.consumer().0, self.consumer().1, Some((key@, secret@)), seq![("oauth_verifier"@, pin@)], nonce, timestamp),
                )
            };
                    lemma_signs_request(
                        header@,
                        "POST"@,
                        self.access_token_url(),
                        self.consumer(),
                        Some((key@, secret@)),
                        seq![("oauth_verifier"@, pin@)],
                        nonce,
                        timestamp,
                    );
                }
                Ok(header)
            },
        }
    }

    /// The access token pair from the body of the access-token response.
    pub fn accept_access_token(&self, body: &str) -> (pair: Result<(String, String), OAuthError>)
        ensures
            token_pair_result(body@, pair),
    {
        token_pair(body)
    }
}

/// What a token response body gives: the pair, or a protocol error naming the
/// first missing field.
pub open spec fn token_pair_result(body: Seq<char>, pair: Result<(String, String), OAuthError>) -> bool {
    let pairs = form_pairs(body);
    match form_value(pairs, "oauth_token"@) {
        None => pair matches Err(OAuthError::Protocol(m)) && m@ == "missing oauth_token"@,
        Some(token) => match form_value(pairs, "oauth_token_secret"@) {
            None => pair matches Err(OAuthError::Protocol(m)) && m@ == "missing oauth_token_secret"@,
            Some(secret) => pair matches Ok((t, s)) && t@ == token && s@ == secret,
        },
    }
}

/// The `oauth_token` and `oauth_token_secret` of a token response body.
pub fn token_pair(body: &str) -> (pair: Result<(String, String), OAuthError>)
    ensures
        token_pair_result(body@, pair),
{
    let params = form_params(body);
    let token = match form_lookup(&params, "oauth_token") {
        Some(t) => t,
        None => {
            return Err(OAuthError::Protocol(String::from_str("missing oauth_token")));
        },
    };
    let secret = match form_lookup(&params, "oauth_token_secret") {
        Some(s) => s,
        None => {
            return Err(OAuthError::Protocol(String::from_str("missing oauth_token_secret")));
        },
    };
    Ok((token, secret))
}

} // verus!
