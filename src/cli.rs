use vstd::prelude::*;
use crate::address::{
    addr_text, address_text, classify, is_global_spec, parse_ip_spec, Classification, IpAddress,
};
use crate::lookup::{
    decodable, decode_body, decoded_as, doc_text, encoded_as, json_doc, json_text, DecodeError, Json,
    VpnApiResult,
};

verus! {

/// The characters with the Unicode White_Space property, which `str::trim`
/// strips.
pub open spec fn is_ws(c: char) -> bool {
    ('\u{9}' <= c && c <= '\u{d}') || c == ' ' || c == '\u{85}' || c == '\u{a0}' || c == '\u{1680}'
        || ('\u{2000}' <= c && c <= '\u{200a}') || c == '\u{2028}' || c == '\u{2029}' || c
        == '\u{202f}' || c == '\u{205f}' || c == '\u{3000}'
}

pub open spec fn trim_start_of(s: Seq<char>) -> Seq<char>
    decreases s.len(),
{
    if s.len() > 0 && is_ws(s[0]) {
        trim_start_of(s.skip(1))
    } else {
        s
    }
}

pub open spec fn trim_end_of(s: Seq<char>) -> Seq<char>
    decreases s.len(),
{
    if s.len() > 0 && is_ws(s.last()) {
        trim_end_of(s.drop_last())
    } else {
        s
    }
}

/// `s` without leading and trailing white space.
pub open spec fn trim_of(s: Seq<char>) -> Seq<char> {
    trim_end_of(trim_start_of(s))
}

fn ws(c: char) -> (r: bool)
    ensures
        r == is_ws(c),
{
    ('\u{9}' <= c && c <= '\u{d}') || c == ' ' || c == '\u{85}' || c == '\u{a0}' || c == '\u{1680}'
        || ('\u{2000}' <= c && c <= '\u{200a}') || c == '\u{2028}' || c == '\u{2029}' || c
        == '\u{202f}' || c == '\u{205f}' || c == '\u{3000}'
}

/// `s` without leading and trailing white space, as `str::trim` gives it.
pub fn trimmed(s: &str) -> (r: String)
    ensures
        r@ == trim_of(s@),
{
    let n = s.unicode_len();
    let mut i: usize = 0;
    assert(s@.subrange(0, n as int) =~= s@);
    while i < n && ws(s.get_char(i))
        invariant
            n == s@.len(),
            i <= n,
            trim_start_of(s@) == trim_start_of(s@.subrange(i as int, n as int)),
        decreases n - i,
    {
        assert(s@.subrange(i as int, n as int).skip(1) =~= s@.subrange(i + 1, n as int));
        i = i + 1;
    }
    let ghost front = s@.subrange(i as int, n as int);
    assert(trim_start_of(s@) == front);
    let mut j: usize = n;
    while j > i && ws(s.get_char(j - 1))
        invariant
            n == s@.len(),
            i <= j <= n,
            front == s@.subrange(i as int, n as int),
            trim_end_of(front) == trim_end_of(s@.subrange(i as int, j as int)),
        decreases j,
    {
        assert(s@.subrange(i as int, j as int).drop_last() =~= s@.subrange(i as int, j - 1));
        j = j - 1;
    }
    String::from_str(s.substring_char(i, j))
}

proof fn lemma_trim_start_first(s: Seq<char>)
    ensures
        trim_start_of(s).len() == 0 || !is_ws(trim_start_of(s)[0]),
    decreases s.len(),
{
    if s.len() > 0 && is_ws(s[0]) {
        lemma_trim_start_first(s.skip(1));
    }
}

proof fn lemma_trim_end_prefix(s: Seq<char>)
    ensures
        trim_end_of(s).len() <= s.len(),
        trim_end_of(s) == s.subrange(0, trim_end_of(s).len() as int),
        trim_end_of(s).len() == 0 || !is_ws(trim_end_of(s).last()),
    decreases s.len(),
{
    if s.len() > 0 && is_ws(s.last()) {
        lemma_trim_end_prefix(s.drop_last());
        let m = trim_end_of(s).len() as int;
        assert(s.drop_last().subrange(0, m) =~= s.subrange(0, m));
    } else {
        assert(s =~= s.subrange(0, s.len() as int));
    }
}

/// Trimming twice gives what trimming once gives.
pub proof fn lemma_trim_idempotent(s: Seq<char>)
    ensures
        trim_of(trim_of(s)) == trim_of(s),
{
    let y = trim_start_of(s);
    let t = trim_of(s);
    lemma_trim_start_first(s);
    lemma_trim_end_prefix(y);
    if t.len() > 0 {
        assert(t[0] == y.subrange(0, t.len() as int)[0]);
        assert(t[0] == y[0]);
        assert(trim_start_of(t) == t);
        assert(trim_end_of(t) == t);
    }
}

pub open spec fn url_prefix() -> Seq<char> {
    "https://vpnapi.io/api/"@
}

pub open spec fn key_param() -> Seq<char> {
    "?key="@
}

/// The lookup request for `ip` with credential `key`: the address in its
/// canonical text, the key as it is, neither of them encoded.
pub fn request_url(ip: &IpAddress, key: &str) -> (r: String)
    ensures
        r@ == url_prefix() + addr_text(ip@) + key_param() + key@,
{
    let mut url = String::from_str("https://vpnapi.io/api/");
    let text = address_text(ip);
    url.append(text.as_str());
    url.append("?key=");
    url.append(key);
    url
}

/// Why no credential could be had.
#[derive(Clone, Copy, Debug, PartialEq, Eq, Structural)]
pub enum KeyError {
    /// The stored credential could not be read.
    Unreadable,
    /// The credential to use is empty.
    Missing,
}

impl KeyError {
    /// The line printed for this error.
    pub fn message(&self) -> (r: String)
        ensures
            *self == KeyError::Unreadable ==> r@
                == "Unable to read key file, try running `vpnapi-cli config` or entering `-k <your key>`"@,
            *self == KeyError::Missing ==> r@ == "You need to enter or set a key"@,
    {
        match self {
            KeyError::Unreadable => String::from_str(
                "Unable to read key file, try running `vpnapi-cli config` or entering `-k <your key>`",
            ),
            KeyError::Missing => String::from_str("You need to enter or set a key"),
        }
    }
}

pub open spec fn opt_view(o: Option<String>) -> Option<Seq<char>> {
    match o {
        Some(s) => Some(s@),
        None => None,
    }
}

/// The credential a run uses, given the explicit value and the stored text
/// (`None` where it could not be read).
pub open spec fn key_for(explicit: Seq<char>, stored: Option<Seq<char>>) -> Result<Seq<char>, KeyError> {
    if explicit.len() > 0 {
        Ok(explicit)
    } else {
        match stored {
            None => Err(KeyError::Unreadable),
            Some(s) => Ok(trim_of(s)),
        }
    }
}

/// The credential that a run uses. A non-empty `explicit` value is taken as it
/// is; otherwise the stored text (`None` where it could not be read), trimmed.
pub fn get_api_key(explicit: &String, stored: Option<String>) -> (r: Result<String, KeyError>)
    ensures
        match r {
            Ok(k) => key_for(explicit@, opt_view(stored)) == Ok::<Seq<char>, KeyError>(k@),
            Err(e) => key_for(explicit@, opt_view(stored)) == Err::<Seq<char>, KeyError>(e),
        },
{
    if explicit.unicode_len() > 0 {
        return Ok(explicit.clone());
    }
    match stored {
        None => Err(KeyError::Unreadable),
        Some(s) => Ok(trimmed(s.as_str())),
    }
}

/// A run goes on to the lookup only with a non-empty credential.
pub fn check_key(key: &String) -> (r: Result<(), KeyError>)
    ensures
        r is Ok <==> key@.len() > 0,
        r matches Err(e) ==> e == KeyError::Missing,
{
    if key.unicode_len() == 0 {
        Err(KeyError::Missing)
    } else {
        Ok(())
    }
}

/// A non-empty explicit credential wins over whatever is stored, even where a
/// stored one exists and differs.
pub proof fn lemma_explicit_key_wins(explicit: Seq<char>, stored: Option<Seq<char>>)
    requires
        explicit.len() > 0,
    ensures
        key_for(explicit, stored) == Ok::<Seq<char>, KeyError>(explicit),
        key_for(explicit, stored) == key_for(explicit, None),
{
}

/// The text to store as the credential: what was typed, trimmed.
pub fn key_to_store(input: &str) -> (r: String)
    ensures
        r@ == trim_of(input@),
{
    trimmed(input)
}

/// A key stored from a typed line and read back, with no explicit key given,
/// is the typed line trimmed.
pub proof fn lemma_stored_key_round_trip(input: Seq<char>)
    ensures
        key_for(seq![], Some(trim_of(input))) == Ok::<Seq<char>, KeyError>(trim_of(input)),
{
    lemma_trim_idempotent(input);
}

/// The first decision of a run on its address argument.
#[derive(Debug)]
pub enum Step {
    /// Ask for a credential and store it.
    StoreKey,
    /// Print the line and stop.
    Stop(String),
    /// Go on to look the address up.
    Lookup(IpAddress),
}

pub open spec fn config_word() -> Seq<char> {
    "config"@
}

/// `config` asks for a credential; text that is no IP literal, or an address
/// that is not globally reachable, stops the run with a line; a global address
/// goes on to the lookup.
pub fn first_step(ip: &String) -> (r: Step)
    ensures
        ip@ == config_word() ==> r is StoreKey,
        ip@ != config_word() ==> match parse_ip_spec(ip@) {
            None => (r matches Step::Stop(m) && m@ == "Invalid IP"@),
            Some(a) => if is_global_spec(a) {
                (r matches Step::Lookup(x) && x@ == a)
            } else {
                (r matches Step::Stop(m) && m@ == "Not global IP"@)
            },
        },
{
    if *ip == String::from_str("config") {
        return Step::StoreKey;
    }
    match classify(ip.as_str()) {
        Classification::Invalid => Step::Stop(String::from_str("Invalid IP")),
        Classification::Local => Step::Stop(String::from_str("Not global IP")),
        Classification::Global(a) => Step::Lookup(a),
    }
}

/// What a decoded answer shows: the service's message, or the document.
#[derive(Debug)]
pub enum Report {
    Message(String),
    Document(Json),
}

/// A message from the service is shown alone, in place of the document.
pub fn report(v: VpnApiResult) -> (r: Report)
    requires
        v.wf(),
    ensures
        v.message matches Some(m) ==> r == Report::Message(m),
        v.message is None ==> (r matches Report::Document(j) && encoded_as(v, j)),
{
    match v.message {
        Some(m) => Report::Message(m),
        None => Report::Document(v.into_json()),
    }
}

/// What is printed for a document `j` that decodes to `v`: the service's
/// message if it sent one, else the encoding of `v` as JSON text.
pub open spec fn shown_as(j: Json, pretty: bool, t: Seq<char>) -> bool {
    exists|v: VpnApiResult|
        #![trigger decoded_as(j, v)]
        decoded_as(j, v) && v.wf() && match v.message {
            Some(m) => t == m@,
            None => exists|e: Json| #![trigger encoded_as(v, e)] encoded_as(v, e) && t == doc_text(e, pretty),
        }
}

/// The text printed for a response body: the service's message if it sent
/// one, else the result as JSON, indented where `pretty` holds.
pub fn render(body: &str, pretty: bool) -> (r: Result<String, DecodeError>)
    ensures
        json_doc(body@) is None ==> r == Err::<String, DecodeError>(DecodeError::Syntax),
        json_doc(body@) matches Some(j) ==> if decodable(j) {
            r matches Ok(t) && shown_as(j, pretty, t@)
        } else {
            r == Err::<String, DecodeError>(DecodeError::Shape)
        },
{
    match decode_body(body) {
        Err(e) => Err(e),
        Ok(v) => {
            let ghost v0 = v;
            match report(v) {
                Report::Message(m) => Ok(m),
                Report::Document(j) => {
                    let ghost e = j;
                    let t = json_text(j, pretty);
                    assert(encoded_as(v0, e) && t@ == doc_text(e, pretty));
                    Ok(t)
                },
            }
        },
    }
}

} // verus!
