//! URLs with a query string.

use vstd::prelude::*;
use vstd::utf8::encode_utf8;
use vstd::utf8::encode_utf8_decode_utf8;

use crate::text::all_chars;
use crate::text::join;
use crate::text::lemma_split_first;
use crate::text::lemma_split_last;
use crate::text::optional_text;

verus! {

/// The parts of a URL that requests are made of.
pub struct UrlParts {
    /// The whole URL.
    pub text: String,
    pub host: Option<String>,
    pub path: String,
    pub query: Option<String>,
}

/// What a `UrlParts` stands for.
pub struct UrlView {
    pub text: Seq<char>,
    pub host: Option<Seq<char>>,
    pub path: Seq<char>,
    pub query: Option<Seq<char>>,
}

impl View for UrlParts {
    type V = UrlView;

    open spec fn view(&self) -> UrlView {
        UrlView {
            text: self.text@,
            host: optional_text(self.host),
            path: self.path@,
            query: optional_text(self.query),
        }
    }
}

/// Names with their values.
pub open spec fn pairs_of(list: Seq<(String, String)>) -> Seq<(Seq<char>, Seq<char>)> {
    list.map_values(|pair: (String, String)| (pair.0@, pair.1@))
}

/// The upper-case hexadecimal digit for `n`.
pub open spec fn percent_digit(n: int) -> char {
    if n < 10 {
        (48 + n) as u8 as char
    } else {
        (55 + n) as u8 as char
    }
}

/// Whether a byte stands for itself in a form-encoded text.
pub open spec fn form_plain(b: u8) -> bool {
    ||| b == '*' as u8
    ||| b == '-' as u8
    ||| b == '.' as u8
    ||| b == '_' as u8
    ||| '0' as u8 <= b <= '9' as u8
    ||| 'A' as u8 <= b <= 'Z' as u8
    ||| 'a' as u8 <= b <= 'z' as u8
}

/// One byte in `application/x-www-form-urlencoded` text.
pub open spec fn form_byte(b: u8) -> Seq<char> {
    if form_plain(b) {
        seq![b as char]
    } else if b == ' ' as u8 {
        seq!['+']
    } else {
        seq!['%', percent_digit(b as int / 16), percent_digit(b as int % 16)]
    }
}

/// Bytes in `application/x-www-form-urlencoded` text.
pub open spec fn form_bytes(bytes: Seq<u8>) -> Seq<char>
    decreases bytes.len(),
{
    if bytes.len() == 0 {
        Seq::empty()
    } else {
        form_bytes(bytes.drop_last()) + form_byte(bytes.last())
    }
}

/// `name=value` in `application/x-www-form-urlencoded` text.
pub open spec fn form_pair(pair: (Seq<char>, Seq<char>)) -> Seq<char> {
    form_bytes(encode_utf8(pair.0)) + seq!['='] + form_bytes(encode_utf8(pair.1))
}

/// The pairs in `application/x-www-form-urlencoded` text, with `&` between them.
pub open spec fn form_query(pairs: Seq<(Seq<char>, Seq<char>)>) -> Seq<char>
    decreases pairs.len(),
{
    if pairs.len() == 0 {
        Seq::empty()
    } else if pairs.len() == 1 {
        form_pair(pairs[0])
    } else {
        form_query(pairs.drop_last()) + seq!['&'] + form_pair(pairs.last())
    }
}

/// A host name made of labels of lower-case ASCII letters.
pub open spec fn plain_host(host: Seq<char>) -> bool {
    &&& host.len() > 0
    &&& host[0] != '.'
    &&& host.last() != '.'
    &&& forall|i: int| 0 <= i < host.len() ==> 'a' <= #[trigger] host[i] <= 'z' || host[i] == '.'
    &&& forall|i: int, j: int|
        0 <= i < host.len() && j == i + 1 && j < host.len() && #[trigger] host[i] == '.'
            ==> #[trigger] host[j] != '.'
}

/// A path made of `/`, `-`, digits and lower-case ASCII letters.
pub open spec fn plain_path(path: Seq<char>) -> bool {
    &&& path.len() > 0
    &&& path[0] == '/'
    &&& forall|i: int|
        0 <= i < path.len() ==> 'a' <= #[trigger] path[i] <= 'z' || '0' <= path[i] <= '9' || path[i]
            == '/' || path[i] == '-'
}

/// The `https` URL with the given host, path and query.
pub open spec fn https_url(
    host: Seq<char>,
    path: Seq<char>,
    pairs: Seq<(Seq<char>, Seq<char>)>,
) -> UrlView {
    UrlView {
        text: "https://"@ + host + path + "?"@ + form_query(pairs),
        host: Some(host),
        path,
        query: Some(form_query(pairs)),
    }
}

/// How many characters a list of pairs has, with the marks between them.
pub open spec fn pairs_size(pairs: Seq<(Seq<char>, Seq<char>)>) -> nat
    decreases pairs.len(),
{
    if pairs.len() == 0 {
        0
    } else {
        pairs_size(pairs.drop_last()) + pairs.last().0.len() + pairs.last().1.len() + 2
    }
}

/// Whether the places in a URL can be counted with 32 bits: `base` is short enough, and where it has
/// a fragment, which moves behind the pairs, these are too.
pub open spec fn url_fits(base: Seq<char>, pairs: Seq<(Seq<char>, Seq<char>)>) -> bool {
    &&& base.len() <= 0x0100_0000
    &&& base.contains('#') ==> pairs_size(pairs) <= 0x0400_0000
}

/// The URL that `base` reads as, with `pairs` appended to its query; `None` where it reads as none.
pub uninterp spec fn url_with_pairs(
    base: Seq<char>,
    pairs: Seq<(Seq<char>, Seq<char>)>,
) -> Option<UrlView>;

/// Calls `reqwest::Url::parse`, appends the pairs through `query_pairs_mut` and reads the parts of
/// the outcome off it, which depends on the arguments alone. An `https` URL with a plain host and a
/// plain path stays as it is written, and the pairs follow form-encoded.
#[verifier::external_body]
pub(crate) fn build_url(base: &str, pairs: &Vec<(String, String)>) -> (res: Option<UrlParts>)
    requires
        url_fits(base@, pairs_of(pairs@)),
    ensures
        res is Some <==> url_with_pairs(base@, pairs_of(pairs@)) is Some,
        res matches Some(parts) ==> url_with_pairs(base@, pairs_of(pairs@)) == Some(parts@),
        forall|host: Seq<char>, path: Seq<char>|
            plain_host(host) && plain_path(path) && base@ == "https://"@ + host + path ==> res is Some
                && res->0@ == #[trigger] https_url(host, path, pairs_of(pairs@)),
{
    let mut url = reqwest::Url::parse(base).ok()?;
    url.query_pairs_mut().extend_pairs(pairs);
    let host = url.host_str().map(str::to_owned);
    let query = url.query().map(str::to_owned);
    Some(UrlParts { text: url.as_str().to_owned(), host, path: url.path().to_owned(), query })
}

/// Whether an address is `https://` with a plain host.
pub open spec fn plain_address(address: Seq<char>) -> bool {
    "https://"@.is_prefix_of(address) && plain_host(address.skip("https://"@.len() as int))
}

/// The URL of a path at an address, with `pairs` as its query.
pub open spec fn built_url(
    address: Seq<char>,
    path: Seq<char>,
    pairs: Seq<(Seq<char>, Seq<char>)>,
) -> Option<UrlView> {
    if plain_address(address) && plain_path(path) {
        Some(https_url(address.skip("https://"@.len() as int), path, pairs))
    } else {
        url_with_pairs(address + path, pairs)
    }
}

/// The view of a URL that may be missing.
pub open spec fn optional_url(url: Option<UrlParts>) -> Option<UrlView> {
    match url {
        Some(parts) => Some(parts@),
        None => None,
    }
}

/// Builds the URL of a path at an address, with `pairs` as its query.
pub fn url_at(address: &str, path: &str, pairs: &Vec<(String, String)>) -> (res: Option<UrlParts>)
    requires
        url_fits(address@ + path@, pairs_of(pairs@)),
    ensures
        optional_url(res) == built_url(address@, path@, pairs_of(pairs@)),
{
    let base = join(address, path);
    proof {
        let host = address@.skip("https://"@.len() as int);
        if plain_address(address@) {
            assert(address@ =~= "https://"@ + host);
        }
        let _ = https_url(host, path@, pairs_of(pairs@));
    }
    build_url(base.as_str(), pairs)
}

/// Form-encoded bytes, taken from the front.
proof fn lemma_form_front(bytes: Seq<u8>)
    requires
        bytes.len() > 0,
    ensures
        form_bytes(bytes) == form_byte(bytes[0]) + form_bytes(bytes.drop_first()),
    decreases bytes.len(),
{
    if bytes.len() == 1 {
        assert(bytes.drop_last() =~= Seq::<u8>::empty());
        assert(bytes.drop_first() =~= Seq::<u8>::empty());
        assert(form_bytes(bytes) =~= form_byte(bytes[0]) + form_bytes(bytes.drop_first()));
    } else {
        lemma_form_front(bytes.drop_last());
        assert(bytes.drop_last().drop_first() =~= bytes.drop_first().drop_last());
        assert(form_bytes(bytes) =~= form_byte(bytes[0]) + form_bytes(bytes.drop_first()));
    }
}

/// Form-encoded text holds letters, digits and `*`, `-`, `.`, `_`, `+`, `%`: nothing that could end a
/// value, a pair or a query.
pub proof fn law_form_text_is_plain(bytes: Seq<u8>)
    ensures
        all_chars(
            form_bytes(bytes),
            |c: char|
                'a' <= c <= 'z' || 'A' <= c <= 'Z' || '0' <= c <= '9' || c == '*' || c == '-' || c
                    == '.' || c == '_' || c == '+' || c == '%',
        ),
        !form_bytes(bytes).contains('='),
        !form_bytes(bytes).contains('&'),
        !form_bytes(bytes).contains('#'),
    decreases bytes.len(),
{
    if bytes.len() > 0 {
        law_form_text_is_plain(bytes.drop_last());
        let head = form_bytes(bytes.drop_last());
        let tail = form_byte(bytes.last());
        assert forall|i: int| 0 <= i < form_bytes(bytes).len() implies {
            let c = #[trigger] form_bytes(bytes)[i];
            'a' <= c <= 'z' || 'A' <= c <= 'Z' || '0' <= c <= '9' || c == '*' || c == '-' || c
                == '.' || c == '_' || c == '+' || c == '%'
        } by {
            if i < head.len() {
                assert(form_bytes(bytes)[i] == head[i]);
            } else {
                assert(form_bytes(bytes)[i] == tail[i - head.len()]);
            }
        }
    }
}

/// Form-encoded text tells which bytes it stands for.
pub proof fn law_form_text_is_injective(a: Seq<u8>, b: Seq<u8>)
    requires
        form_bytes(a) == form_bytes(b),
    ensures
        a == b,
    decreases a.len(),
{
    if a.len() > 0 {
        lemma_form_front(a);
    }
    if b.len() > 0 {
        lemma_form_front(b);
    }
    if a.len() > 0 && b.len() > 0 {
        let s = form_bytes(a);
        let t = form_bytes(b);
        let n = form_byte(a[0]).len();
        let m = form_byte(b[0]).len();
        assert(s[0] == form_byte(a[0])[0]);
        assert(t[0] == form_byte(b[0])[0]);
        assert(n == m);
        assert forall|i: int| 0 <= i < n implies form_byte(a[0])[i] == form_byte(b[0])[i] by {
            assert(s[i] == form_byte(a[0])[i]);
            assert(t[i] == form_byte(b[0])[i]);
        }
        if n == 3 {
            assert(form_byte(a[0])[1] == form_byte(b[0])[1]);
            assert(form_byte(a[0])[2] == form_byte(b[0])[2]);
        }
        assert(a[0] == b[0]);
        assert(form_bytes(a.drop_first()) =~= s.skip(n as int));
        assert(form_bytes(b.drop_first()) =~= t.skip(n as int));
        law_form_text_is_injective(a.drop_first(), b.drop_first());
        assert(a =~= seq![a[0]] + a.drop_first());
        assert(b =~= seq![b[0]] + b.drop_first());
    } else {
        assert(a.len() > 0 ==> form_bytes(a).len() >= form_byte(a[0]).len());
        assert(b.len() > 0 ==> form_bytes(b).len() >= form_byte(b[0]).len());
        assert(a =~= b);
    }
}

proof fn lemma_pair_is_injective(a: (Seq<char>, Seq<char>), b: (Seq<char>, Seq<char>))
    requires
        form_pair(a) == form_pair(b),
    ensures
        a == b,
{
    law_form_text_is_plain(encode_utf8(a.0));
    law_form_text_is_plain(encode_utf8(b.0));
    lemma_split_first(
        form_bytes(encode_utf8(a.0)),
        form_bytes(encode_utf8(a.1)),
        form_bytes(encode_utf8(b.0)),
        form_bytes(encode_utf8(b.1)),
        '=',
    );
    law_form_text_is_injective(encode_utf8(a.0), encode_utf8(b.0));
    law_form_text_is_injective(encode_utf8(a.1), encode_utf8(b.1));
    encode_utf8_decode_utf8(a.0);
    encode_utf8_decode_utf8(a.1);
    encode_utf8_decode_utf8(b.0);
    encode_utf8_decode_utf8(b.1);
}

proof fn lemma_pair_has_no_ampersand(pair: (Seq<char>, Seq<char>))
    ensures
        !form_pair(pair).contains('&'),
{
    law_form_text_is_plain(encode_utf8(pair.0));
    law_form_text_is_plain(encode_utf8(pair.1));
    let name = form_bytes(encode_utf8(pair.0));
    let value = form_bytes(encode_utf8(pair.1));
    assert forall|i: int| 0 <= i < form_pair(pair).len() implies #[trigger] form_pair(pair)[i]
        != '&' by {
        if i < name.len() {
            assert(form_pair(pair)[i] == name[i]);
        } else if i > name.len() {
            assert(form_pair(pair)[i] == value[i - name.len() - 1]);
        }
    }
}

/// A query tells which pairs it stands for: no name and no value, whatever it holds, can change
/// another pair, add one or take one away.
pub proof fn law_query_names_its_pairs(
    a: Seq<(Seq<char>, Seq<char>)>,
    b: Seq<(Seq<char>, Seq<char>)>,
)
    requires
        a.len() > 0,
        b.len() > 0,
        form_query(a) == form_query(b),
    ensures
        a == b,
    decreases a.len(),
{
    lemma_pair_has_no_ampersand(a.last());
    lemma_pair_has_no_ampersand(b.last());
    if a.len() == 1 && b.len() == 1 {
        lemma_pair_is_injective(a[0], b[0]);
        assert(a =~= b);
    } else if a.len() == 1 {
        let head = form_query(b.drop_last());
        assert(form_query(b)[head.len() as int] == '&');
    } else if b.len() == 1 {
        let head = form_query(a.drop_last());
        assert(form_query(a)[head.len() as int] == '&');
    } else {
        lemma_split_last(
            form_query(a.drop_last()),
            form_pair(a.last()),
            form_query(b.drop_last()),
            form_pair(b.last()),
            '&',
        );
        lemma_pair_is_injective(a.last(), b.last());
        law_query_names_its_pairs(a.drop_last(), b.drop_last());
        assert(a =~= a.drop_last().push(a.last()));
        assert(b =~= b.drop_last().push(b.last()));
    }
}

/// Form-encoded text is made byte by byte: letters, digits and `*`, `-`, `.`, `_` stand for themselves,
/// `+` for a space, and every other byte is written as `%` with two upper-case hexadecimal digits.
pub proof fn law_form_text_spells_the_bytes(bytes: Seq<u8>, b: u8)
    ensures
        form_bytes(bytes.push(b)) == form_bytes(bytes) + form_byte(b),
        form_bytes(Seq::empty()) == Seq::<char>::empty(),
        ({
            let text = form_byte(b);
            if 0x30 <= b <= 0x39 || 0x41 <= b <= 0x5a || 0x61 <= b <= 0x7a || b == 0x2a || b == 0x2d
                || b == 0x2e || b == 0x5f {
                text.len() == 1 && text[0] as int == b
            } else if b == 0x20 {
                text.len() == 1 && text[0] as int == 0x2b
            } else {
                let h = text[1] as int;
                let l = text[2] as int;
                &&& text.len() == 3
                &&& text[0] as int == 0x25
                &&& 0x30 <= h <= 0x39 || 0x41 <= h <= 0x46
                &&& 0x30 <= l <= 0x39 || 0x41 <= l <= 0x46
                &&& b as int == 16 * (if h <= 0x39 {
                    h - 0x30
                } else {
                    h - 0x41 + 10
                }) + (if l <= 0x39 {
                    l - 0x30
                } else {
                    l - 0x41 + 10
                })
            }
        }),
{
    assert(bytes.push(b).drop_last() =~= bytes);
}

/// A query is made pair by pair, with `=` between a name and its value and `&` between two pairs.
pub proof fn law_query_spells_the_pairs(
    pairs: Seq<(Seq<char>, Seq<char>)>,
    name: Seq<char>,
    value: Seq<char>,
)
    ensures
        ({
            let pair = form_bytes(encode_utf8(name)) + seq!['='] + form_bytes(encode_utf8(value));
            form_query(pairs.push((name, value))) == if pairs.len() == 0 {
                pair
            } else {
                form_query(pairs) + seq!['&'] + pair
            }
        }),
{
    assert(pairs.push((name, value)).drop_last() =~= pairs);
}

/// At an address made of `https://` and a plain host, a plain path makes a URL that is written as its
/// parts are, one behind the other.
pub proof fn law_plain_url_is_written_as_its_parts(
    host: Seq<char>,
    path: Seq<char>,
    pairs: Seq<(Seq<char>, Seq<char>)>,
)
    requires
        plain_host(host),
        plain_path(path),
    ensures
        built_url("https://"@ + host, path, pairs) matches Some(url) && {
            &&& url.text == "https://"@ + host + path + "?"@ + form_query(pairs)
            &&& url.host == Some(host)
            &&& url.path == path
            &&& url.query == Some(form_query(pairs))
        },
{
    let address = "https://"@ + host;
    assert(address.subrange(0, "https://"@.len() as int) =~= "https://"@);
    assert(address.skip("https://"@.len() as int) =~= host);
}

/// The parts of a URL stand for their texts.
pub proof fn law_url_stands_for_its_parts(url: UrlParts)
    ensures
        url@.text == url.text@,
        url@.path == url.path@,
        url@.host == match url.host {
            Some(host) => Some(host@),
            None => None,
        },
        url@.query == match url.query {
            Some(query) => Some(query@),
            None => None,
        },
{
}

/// Lists of pairs stand for their pairs, one by one, and a URL that may be missing for its parts.
pub proof fn law_pairs_stand_for_what_they_hold(list: Vec<(String, String)>, url: UrlParts)
    ensures
        pairs_of(list@).len() == list@.len(),
        forall|i: int|
            0 <= i < list@.len() ==> #[trigger] pairs_of(list@)[i] == (list@[i].0@, list@[i].1@),
        optional_url(Some(url)) == Some(url@),
        optional_url(None) is None,
{
}

} // verus!
