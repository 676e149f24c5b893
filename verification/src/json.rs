//! JSON objects, one level at a time.

use vstd::prelude::*;
use vstd::slice::slice_subrange;
use vstd::slice::slice_to_vec;
use vstd::utf8::encode_utf8;
use vstd::utf8::encode_utf8_first_scalar;
use vstd::utf8::is_ascii_chars_encode_utf8;

use crate::encoding::hex_digit;
use crate::text::decimal_digits;
use crate::text::expand;
use crate::text::lemma_decimal_digits;
use crate::text::lemma_expand_join;
use crate::text::same_text;

verus! {

/// The value of a member of a JSON object. What is neither `null`, a truth value, an unsigned
/// integer of 64 bits nor a string is kept as its JSON text.
pub enum Json {
    Null,
    Bool(bool),
    Unsigned(u64),
    Text(String),
    Other(String),
}

/// What a `Json` stands for.
pub enum JsonView {
    Null,
    Bool(bool),
    Unsigned(u64),
    Text(Seq<char>),
    Other(Seq<char>),
}

impl View for Json {
    type V = JsonView;

    open spec fn view(&self) -> JsonView {
        match self {
            Json::Null => JsonView::Null,
            Json::Bool(b) => JsonView::Bool(*b),
            Json::Unsigned(n) => JsonView::Unsigned(*n),
            Json::Text(s) => JsonView::Text(s@),
            Json::Other(s) => JsonView::Other(s@),
        }
    }
}

/// The names and values of a list of members.
pub open spec fn members_of(list: Seq<(String, Json)>) -> Seq<(Seq<char>, JsonView)> {
    list.map_values(|member: (String, Json)| (member.0@, member.1@))
}

/// The names and values of a list of members that may be missing.
pub open spec fn optional_members_of(list: Option<Vec<(String, Json)>>) -> Option<
    Seq<(Seq<char>, JsonView)>,
> {
    match list {
        Some(list) => Some(members_of(list@)),
        None => None,
    }
}

/// A value that may be missing.
pub open spec fn optional_json(value: Option<Json>) -> Option<JsonView> {
    match value {
        Some(value) => Some(value@),
        None => None,
    }
}

/// The value of the first member called `name`.
pub open spec fn value_of(list: Seq<(Seq<char>, JsonView)>, name: Seq<char>) -> Option<JsonView>
    decreases list.len(),
{
    if list.len() == 0 {
        None
    } else if list[0].0 == name {
        Some(list[0].1)
    } else {
        value_of(list.drop_first(), name)
    }
}

/// Whether no two members have the same name.
pub open spec fn distinct_names(list: Seq<(Seq<char>, JsonView)>) -> bool {
    forall|i: int, j: int| 0 <= i < j < list.len() ==> (#[trigger] list[i]).0 != (#[trigger] list[j]).0
}

/// Whether no member holds a nested value.
pub open spec fn flat(list: Seq<(Seq<char>, JsonView)>) -> bool {
    forall|i: int| 0 <= i < list.len() ==> !((#[trigger] list[i]).1 is Other)
}

/// How a character is written inside a JSON string.
pub open spec fn json_escape(c: char) -> Seq<char> {
    if c == '"' {
        seq!['\\', '"']
    } else if c == '\\' {
        seq!['\\', '\\']
    } else if c == '\u{8}' {
        seq!['\\', 'b']
    } else if c == '\t' {
        seq!['\\', 't']
    } else if c == '\n' {
        seq!['\\', 'n']
    } else if c == '\u{c}' {
        seq!['\\', 'f']
    } else if c == '\r' {
        seq!['\\', 'r']
    } else if c as int <= 0x1f {
        seq!['\\', 'u', '0', '0', hex_digit(c as int / 16), hex_digit(c as int % 16)]
    } else {
        seq![c]
    }
}

/// The JSON text of a string.
pub open spec fn json_quoted(s: Seq<char>) -> Seq<char> {
    seq!['"'] + expand(s, |c: char| json_escape(c)) + seq!['"']
}

/// The JSON text of a value.
pub open spec fn json_text(value: JsonView) -> Seq<char> {
    match value {
        JsonView::Null => "null"@,
        JsonView::Bool(b) => if b {
            "true"@
        } else {
            "false"@
        },
        JsonView::Unsigned(n) => decimal_digits(n as nat),
        JsonView::Text(s) => json_quoted(s),
        JsonView::Other(text) => text,
    }
}

/// A member as it stands between the braces of an object.
pub open spec fn member_text(member: (Seq<char>, JsonView)) -> Seq<char> {
    json_quoted(member.0) + seq![':'] + json_text(member.1)
}

/// The members as they stand between the braces of an object.
pub open spec fn members_text(list: Seq<(Seq<char>, JsonView)>) -> Seq<char>
    decreases list.len(),
{
    if list.len() == 0 {
        Seq::empty()
    } else if list.len() == 1 {
        member_text(list[0])
    } else {
        member_text(list[0]) + seq![','] + members_text(list.drop_first())
    }
}

/// The JSON text of an object, without white space, its members in the given order.
pub open spec fn object_text(list: Seq<(Seq<char>, JsonView)>) -> Seq<char> {
    seq!['{'] + members_text(list) + seq!['}']
}

/// Whether `text` is the text of an object without nested values.
pub open spec fn flat_object_text(text: Seq<char>) -> bool {
    exists|list: Seq<(Seq<char>, JsonView)>|
        flat(list) && distinct_names(list) && text == #[trigger] object_text(list)
}

/// The members of the JSON object that `bytes` hold, in order; `None` where they hold no JSON
/// object.
pub uninterp spec fn json_object(bytes: Seq<u8>) -> Option<Seq<(Seq<char>, JsonView)>>;

/// Calls `serde_json::from_slice` for a `serde_json::Value` and turns each member of an object into a
/// `Json`. The outcome depends on the bytes alone.
#[verifier::external_body]
pub(crate) fn read_object(bytes: &[u8]) -> (res: Option<Vec<(String, Json)>>)
    ensures
        optional_members_of(res) == json_object(bytes@),
{
    let map = match serde_json::from_slice(bytes).ok()? {
        serde_json::Value::Object(map) => map,
        _ => return None,
    };
    let members = map.into_iter().map(|(name, value)| (name, match value {
        serde_json::Value::Null => Json::Null,
        serde_json::Value::Bool(b) => Json::Bool(b),
        serde_json::Value::String(s) => Json::Text(s),
        serde_json::Value::Number(n) => n.as_u64().map_or_else(|| Json::Other(n.to_string()), Json::Unsigned),
        nested => Json::Other(nested.to_string()),
    }));
    Some(members.collect())
}

/// Where the JSON value ends that `bytes` begin with, white space before it included; `None` where
/// they begin with none.
pub uninterp spec fn value_end(bytes: Seq<u8>) -> Option<nat>;

/// Calls `serde_json::Deserializer::from_slice(..).into_iter` for one value that is skipped, and asks
/// for the `byte_offset`. The outcome depends on the bytes alone.
#[verifier::external_body]
pub(crate) fn find_value_end(bytes: &[u8]) -> (res: Option<usize>)
    ensures
        res is Some <==> value_end(bytes@) is Some,
        res matches Some(end) ==> value_end(bytes@) == Some(end as nat),
        res matches Some(end) ==> 0 < end <= bytes@.len(),
{
    let mut stream = serde_json::Deserializer::from_slice(bytes).into_iter::<serde::de::IgnoredAny>();
    stream.next()?.ok()?;
    Some(stream.byte_offset())
}

/// The string, unsigned integer of 64 bits, truth value or `null` that `bytes` hold as JSON; `None`
/// where they hold anything else.
pub uninterp spec fn scalar_of(bytes: Seq<u8>) -> Option<JsonView>;

/// Calls `serde_json::from_slice` for a `String`, a `u64`, a `bool` and a unit in turn. The outcome
/// depends on the bytes alone.
#[verifier::external_body]
pub(crate) fn read_scalar(bytes: &[u8]) -> (res: Option<Json>)
    ensures
        optional_json(res) == scalar_of(bytes@),
{
    serde_json::from_slice(bytes).map(Json::Text)
        .or_else(|_| serde_json::from_slice(bytes).map(Json::Unsigned))
        .or_else(|_| serde_json::from_slice(bytes).map(Json::Bool))
        .or_else(|_| serde_json::from_slice(bytes).map(|()| Json::Null))
        .ok()
}

/// Whether the JSON text of a value that is not nested stands in `bytes` from `at` up to `end`.
pub open spec fn stands(bytes: Seq<u8>, value: JsonView, at: int, end: int) -> bool {
    &&& 0 <= at < end <= bytes.len()
    &&& !(value is Other)
    &&& bytes.subrange(at, end) == encode_utf8(json_text(value))
}

/// Whether the values that stand in `bytes` are read as what they are, and end where their text does
/// if a comma, a colon or a brace follows.
pub open spec fn reads_back(bytes: Seq<u8>) -> bool {
    forall|value: JsonView, at: int, end: int| #[trigger]
        stands(bytes, value, at, end) ==> {
            &&& scalar_of(bytes.subrange(at, end)) == Some(value)
            &&& end < bytes.len() && (bytes[end] == ',' as u8 || bytes[end] == ':' as u8 || bytes[end]
                == '}' as u8) ==> value_end(bytes.skip(at)) == Some((end - at) as nat)
        }
}

/// Calls `serde_json::to_string` on a `serde_json::Map` made of the members. The text holds them in
/// the given order without white space, its strings escaped as JSON asks; a nested object comes out
/// as it went in. What stands in the text is read back as what it is.
#[verifier::external_body]
pub(crate) fn write_object(list: &Vec<(String, Json)>) -> (res: String)
    requires
        distinct_names(members_of(list@)),
        forall|i: int|
            0 <= i < list@.len() ==> ((#[trigger] list@[i]).1 matches Json::Other(text)
                ==> flat_object_text(text@)),
    ensures
        res@ == object_text(members_of(list@)),
        reads_back(encode_utf8(res@)),
{
    let map: serde_json::Map<String, serde_json::Value> = list.iter().map(|(name, value)| (name.clone(), match value {
        Json::Null => serde_json::Value::Null,
        Json::Bool(b) => serde_json::Value::Bool(*b),
        Json::Unsigned(n) => serde_json::Value::from(*n),
        Json::Text(s) => serde_json::Value::String(s.clone()),
        Json::Other(text) => serde_json::Value::Object(serde_json::from_str(text).unwrap_or_default()),
    })).collect();
    serde_json::to_string(&map).unwrap_or_default()
}

/// A value like the given one.
pub fn copy_json(value: &Json) -> (res: Json)
    ensures
        res@ == value@,
{
    match value {
        Json::Null => Json::Null,
        Json::Bool(b) => Json::Bool(*b),
        Json::Unsigned(n) => Json::Unsigned(*n),
        Json::Text(s) => Json::Text(s.clone()),
        Json::Other(s) => Json::Other(s.clone()),
    }
}

/// The value of the first member called `name`.
pub fn find_member<'a>(list: &'a Vec<(String, Json)>, name: &str) -> (res: Option<&'a Json>)
    ensures
        res is Some <==> value_of(members_of(list@), name@) is Some,
        res matches Some(value) ==> value_of(members_of(list@), name@) == Some(value@),
{
    let ghost all = members_of(list@);
    assert(all.skip(0) =~= all);
    for i in 0..list.len()
        invariant
            all == members_of(list@),
            value_of(all, name@) == value_of(all.skip(i as int), name@),
    {
        assert(all.skip(i as int)[0] == (list@[i as int].0@, list@[i as int].1@));
        if same_text(list[i].0.as_str(), name) {
            return Some(&list[i].1);
        }
        assert(all.skip(i as int).drop_first() =~= all.skip(i + 1));
    }
    None
}

/// The names of a list of members, each with the text of its value.
pub open spec fn raw_members_of(list: Seq<(String, Vec<u8>)>) -> Seq<(Seq<char>, Seq<u8>)> {
    list.map_values(|member: (String, Vec<u8>)| (member.0@, member.1@))
}

/// The names, with the texts of the values, of a list of members that may be missing.
pub open spec fn optional_raw_members_of(list: Option<Vec<(String, Vec<u8>)>>) -> Option<
    Seq<(Seq<char>, Seq<u8>)>,
> {
    match list {
        Some(list) => Some(raw_members_of(list@)),
        None => None,
    }
}

/// White space between the parts of a JSON text.
pub open spec fn json_space(b: u8) -> bool {
    b == ' ' as u8 || b == '\n' as u8 || b == '\t' as u8 || b == '\r' as u8
}

/// The first place from `at` on that holds no white space.
pub open spec fn space_end(bytes: Seq<u8>, at: int) -> int
    decreases bytes.len() - at,
{
    if 0 <= at < bytes.len() && json_space(bytes[at]) {
        space_end(bytes, at + 1)
    } else {
        at
    }
}

/// Whether `b` stands behind the white space from `at` on.
pub open spec fn next_is(bytes: Seq<u8>, at: int, b: u8) -> bool {
    space_end(bytes, at) < bytes.len() && bytes[space_end(bytes, at)] == b
}

/// Whether there is nothing but white space from `at` on.
pub open spec fn ends_at(bytes: Seq<u8>, at: int) -> bool {
    space_end(bytes, at) == bytes.len()
}

/// The end of the value from `at` on.
pub open spec fn end_from(bytes: Seq<u8>, at: int) -> Option<int> {
    match value_end(bytes.skip(at)) {
        Some(end) => if 0 < end <= bytes.len() - at {
            Some(at + end)
        } else {
            None
        },
        None => None,
    }
}

/// The member from `at` on, and where it ends.
pub open spec fn member_from(bytes: Seq<u8>, at: int) -> Option<((Seq<char>, Seq<u8>), int)> {
    match end_from(bytes, at) {
        Some(name_end) => match scalar_of(bytes.subrange(at, name_end)) {
            Some(JsonView::Text(name)) => if next_is(bytes, name_end, ':' as u8) {
                let start = space_end(bytes, name_end) + 1;
                match end_from(bytes, start) {
                    Some(end) => Some(((name, bytes.subrange(start, end)), end)),
                    None => None,
                }
            } else {
                None
            },
            _ => None,
        },
        None => None,
    }
}

/// The members from `at` on up to the brace that ends their object, with which the text ends too.
pub open spec fn members_from(bytes: Seq<u8>, at: int) -> Option<Seq<(Seq<char>, Seq<u8>)>>
    decreases bytes.len() - at,
{
    match member_from(bytes, at) {
        Some((member, end)) => if next_is(bytes, end, '}' as u8) && ends_at(
            bytes,
            space_end(bytes, end) + 1,
        ) {
            Some(seq![member])
        } else if next_is(bytes, end, ',' as u8) && space_end(bytes, end) >= at {
            match members_from(bytes, space_end(bytes, end) + 1) {
                Some(rest) => Some(seq![member] + rest),
                None => None,
            }
        } else {
            None
        },
        None => None,
    }
}

/// The members of the JSON object that `bytes` hold, every one of them and in order, with the texts
/// of their values; `None` where they hold no JSON object. A value may be any JSON, and what its
/// strings hold need not be text.
pub open spec fn object_members(bytes: Seq<u8>) -> Option<Seq<(Seq<char>, Seq<u8>)>> {
    let inside = space_end(bytes, 0) + 1;
    if !next_is(bytes, 0, '{' as u8) {
        None
    } else if next_is(bytes, inside, '}' as u8) {
        if ends_at(bytes, space_end(bytes, inside) + 1) {
            Some(Seq::empty())
        } else {
            None
        }
    } else {
        members_from(bytes, inside)
    }
}

/// Skips white space.
fn skip_space(bytes: &[u8], from: usize) -> (res: usize)
    requires
        from <= bytes@.len(),
    ensures
        from <= res <= bytes@.len(),
        res == space_end(bytes@, from as int),
{
    let mut at: usize = from;
    while at < bytes.len() && (bytes[at] == 32 || bytes[at] == 10 || bytes[at] == 9 || bytes[at]
        == 13)
        invariant
            from <= at <= bytes@.len(),
            space_end(bytes@, from as int) == space_end(bytes@, at as int),
        decreases bytes@.len() - at,
    {
        at = at + 1;
    }
    at
}

/// Finds the end of the value from `at` on.
fn find_end(bytes: &[u8], at: usize) -> (res: Option<usize>)
    requires
        at <= bytes@.len(),
    ensures
        match res {
            Some(end) => at < end <= bytes@.len() && end_from(bytes@, at as int) == Some(end as int),
            None => end_from(bytes@, at as int) is None,
        },
{
    let rest = slice_subrange(bytes, at, bytes.len());
    assert(rest@ =~= bytes@.skip(at as int));
    match find_value_end(rest) {
        Some(end) => Some(at + end),
        None => None,
    }
}

/// Reads the member from `at` on, and finds its end.
fn read_member(bytes: &[u8], at: usize) -> (res: Option<((String, Vec<u8>), usize)>)
    requires
        at <= bytes@.len(),
    ensures
        match res {
            Some((member, end)) => at < end <= bytes@.len() && member_from(bytes@, at as int) == Some(
                ((member.0@, member.1@), end as int),
            ),
            None => member_from(bytes@, at as int) is None,
        },
{
    let name_end = match find_end(bytes, at) {
        Some(end) => end,
        None => return None,
    };
    let name = match read_scalar(slice_subrange(bytes, at, name_end)) {
        Some(Json::Text(name)) => name,
        _ => return None,
    };
    let colon = skip_space(bytes, name_end);
    if colon >= bytes.len() || bytes[colon] != 58 {
        return None;
    }
    match find_end(bytes, colon + 1) {
        Some(end) => {
            let value = slice_to_vec(slice_subrange(bytes, colon + 1, end));
            Some(((name, value), end))
        },
        None => None,
    }
}

/// Reads the members of a JSON object, every one of them and in order, with the texts of their
/// values.
pub fn read_members(bytes: &[u8]) -> (res: Option<Vec<(String, Vec<u8>)>>)
    ensures
        optional_raw_members_of(res) == object_members(bytes@),
{
    let open = skip_space(bytes, 0);
    if open >= bytes.len() || bytes[open] != 123 {
        return None;
    }
    let mut found: Vec<(String, Vec<u8>)> = Vec::new();
    let first = skip_space(bytes, open + 1);
    if first < bytes.len() && bytes[first] == 125 {
        if skip_space(bytes, first + 1) == bytes.len() {
            assert(raw_members_of(found@) =~= Seq::empty());
            return Some(found);
        }
        return None;
    }
    let mut at: usize = open + 1;
    let ghost whole = members_from(bytes@, open + 1);
    loop
        invariant
            at <= bytes@.len(),
            object_members(bytes@) == whole,
            match members_from(bytes@, at as int) {
                Some(rest) => whole == Some(raw_members_of(found@) + rest),
                None => whole is None,
            },
        decreases bytes@.len() - at,
    {
        let (member, end) = match read_member(bytes, at) {
            Some(read) => read,
            None => return None,
        };
        let ghost before = raw_members_of(found@);
        let ghost view = (member.0@, member.1@);
        found.push(member);
        assert(raw_members_of(found@) =~= before.push(view));
        let next = skip_space(bytes, end);
        if next >= bytes.len() {
            return None;
        }
        if bytes[next] == 125 && skip_space(bytes, next + 1) == bytes.len() {
            assert(before + seq![view] =~= before.push(view));
            return Some(found);
        }
        if bytes[next] != 44 {
            return None;
        }
        proof {
            if let Some(rest) = members_from(bytes@, next + 1) {
                assert(before + (seq![view] + rest) =~= before.push(view) + rest);
            }
        }
        at = next + 1;
    }
}

/// The names of members with the texts of their values.
pub open spec fn raw_texts(list: Seq<(Seq<char>, JsonView)>) -> Seq<(Seq<char>, Seq<u8>)> {
    list.map_values(|member: (Seq<char>, JsonView)| (member.0, encode_utf8(json_text(member.1))))
}

proof fn lemma_encode_join(a: Seq<char>, b: Seq<char>)
    ensures
        encode_utf8(a + b) == encode_utf8(a) + encode_utf8(b),
    decreases a.len(),
{
    if a.len() == 0 {
        assert(a + b =~= b);
        assert(encode_utf8(a) + encode_utf8(b) =~= encode_utf8(b));
    } else {
        lemma_encode_join(a.drop_first(), b);
        assert((a + b).drop_first() =~= a.drop_first() + b);
        assert(encode_utf8(a + b) =~= encode_utf8(a) + encode_utf8(b));
    }
}

proof fn lemma_encode_mark(c: char)
    requires
        c as int <= 0x7f,
    ensures
        encode_utf8(seq![c]) == seq![c as u8],
{
    is_ascii_chars_encode_utf8(seq![c]);
    assert(encode_utf8(seq![c]) =~= seq![c as u8]);
}

/// The text of a value that is not nested is not empty.
proof fn lemma_json_text_len(value: JsonView)
    requires
        !(value is Other),
    ensures
        encode_utf8(json_text(value)).len() > 0,
{
    reveal_strlit("null");
    reveal_strlit("true");
    reveal_strlit("false");
    if let JsonView::Unsigned(n) = value {
        lemma_decimal_digits(n as nat);
    }
    let text = json_text(value);
    assert(text.len() > 0);
    encode_utf8_first_scalar(text);
}

/// One member, read where its text stands and a mark follows.
proof fn lemma_member_is_read_back(
    bytes: Seq<u8>,
    at: int,
    member: (Seq<char>, JsonView),
    mark: char,
    rest: Seq<char>,
)
    requires
        reads_back(bytes),
        0 <= at <= bytes.len(),
        !(member.1 is Other),
        mark == ',' || mark == '}',
        bytes.skip(at) == encode_utf8(member_text(member) + seq![mark] + rest),
    ensures
        ({
            let end = at + encode_utf8(member_text(member)).len();
            &&& member_from(bytes, at) == Some(
                ((member.0, encode_utf8(json_text(member.1))), end),
            )
            &&& at < end < bytes.len()
            &&& bytes[end] == mark as u8
            &&& bytes.skip(end + 1) == encode_utf8(rest)
            &&& scalar_of(encode_utf8(json_text(member.1))) == Some(member.1)
        }),
{
    let name = encode_utf8(json_text(JsonView::Text(member.0)));
    let value = encode_utf8(json_text(member.1));
    let after = encode_utf8(rest);
    lemma_encode_mark(':');
    lemma_encode_mark(mark);
    lemma_encode_join(json_quoted(member.0), seq![':']);
    lemma_encode_join(json_quoted(member.0) + seq![':'], json_text(member.1));
    lemma_encode_join(member_text(member), seq![mark]);
    lemma_encode_join(member_text(member) + seq![mark], rest);
    lemma_json_text_len(JsonView::Text(member.0));
    lemma_json_text_len(member.1);
    let s = bytes.skip(at);
    assert(s == name + seq![':' as u8] + value + seq![mark as u8] + after);
    let name_end = at + name.len();
    let start = name_end + 1;
    let end = start + value.len();
    assert(forall|i: int| 0 <= i < s.len() ==> s[i] == bytes[at + i]);
    assert(bytes[name_end] == s[name.len() as int]);
    assert(bytes[end] == s[end - at]);
    assert(bytes.subrange(at, name_end) =~= name);
    assert(bytes.subrange(start, end) =~= value) by {
        assert(bytes.subrange(start, end) =~= s.subrange(start - at, end - at));
        assert(s.subrange(start - at, end - at) =~= value);
    }
    assert(bytes.skip(end + 1) =~= after) by {
        assert(bytes.skip(end + 1) =~= s.skip(end + 1 - at));
        assert(s.skip(end + 1 - at) =~= after);
    }
    assert(stands(bytes, JsonView::Text(member.0), at, name_end));
    assert(stands(bytes, member.1, start, end));
    assert(space_end(bytes, name_end) == name_end);
    assert(encode_utf8(member_text(member)).len() == name.len() + 1 + value.len());
}

proof fn lemma_members_are_read_back(
    bytes: Seq<u8>,
    at: int,
    list: Seq<(Seq<char>, JsonView)>,
)
    requires
        reads_back(bytes),
        0 <= at <= bytes.len(),
        flat(list),
        list.len() > 0,
        bytes.skip(at) == encode_utf8(members_text(list) + seq!['}']),
    ensures
        members_from(bytes, at) == Some(raw_texts(list)),
        forall|i: int|
            0 <= i < list.len() ==> scalar_of(encode_utf8(json_text((#[trigger] list[i]).1))) == Some(
                list[i].1,
            ),
    decreases list.len(),
{
    let member = list[0];
    let end = at + encode_utf8(member_text(member)).len();
    if list.len() == 1 {
        assert(members_text(list) + seq!['}'] =~= member_text(member) + seq!['}'] + Seq::empty());
        lemma_member_is_read_back(bytes, at, member, '}', Seq::empty());
        assert(bytes.skip(end + 1).len() == 0);
        assert(space_end(bytes, end) == end);
        assert(space_end(bytes, end + 1) == bytes.len());
        assert(raw_texts(list) =~= seq![(member.0, encode_utf8(json_text(member.1)))]);
    } else {
        let rest = list.drop_first();
        assert(members_text(list) + seq!['}'] =~= member_text(member) + seq![','] + (members_text(
            rest,
        ) + seq!['}']));
        lemma_member_is_read_back(bytes, at, member, ',', members_text(rest) + seq!['}']);
        lemma_members_are_read_back(bytes, end + 1, rest);
        assert(space_end(bytes, end) == end);
        assert(raw_texts(list) =~= seq![(member.0, encode_utf8(json_text(member.1)))] + raw_texts(
            rest,
        ));
        assert forall|i: int| 0 <= i < list.len() implies scalar_of(
            encode_utf8(json_text((#[trigger] list[i]).1)),
        ) == Some(list[i].1) by {
            if i > 0 {
                assert(list[i] == rest[i - 1]);
            }
        }
    }
}

/// An object without nested values is read back from its text: every member in its place, and every
/// value as what it is.
pub proof fn law_object_is_read_back(list: Seq<(Seq<char>, JsonView)>)
    requires
        flat(list),
        list.len() > 0,
        reads_back(encode_utf8(object_text(list))),
    ensures
        object_members(encode_utf8(object_text(list))) == Some(raw_texts(list)),
        forall|i: int|
            0 <= i < list.len() ==> scalar_of(encode_utf8(json_text((#[trigger] list[i]).1))) == Some(
                list[i].1,
            ),
{
    let bytes = encode_utf8(object_text(list));
    let inner = members_text(list) + seq!['}'];
    assert(object_text(list) =~= seq!['{'] + inner);
    lemma_encode_mark('{');
    lemma_encode_mark('"');
    lemma_encode_join(seq!['{'], inner);
    assert(bytes[0] == '{' as u8);
    assert(bytes.skip(1) =~= encode_utf8(inner));
    lemma_members_are_read_back(bytes, 1, list);
    assert(inner[0] == '"');
    assert(inner =~= seq!['"'] + inner.drop_first());
    lemma_encode_join(seq!['"'], inner.drop_first());
    assert(bytes[1] == bytes.skip(1)[0]);
    assert(bytes[1] == '"' as u8);
    assert(space_end(bytes, 0) == 0);
    assert(space_end(bytes, 1) == 1);
}

/// Looking a name up gives the value of the first member that has it, and nothing where no member has
/// it.
pub proof fn law_lookup_finds_the_first(list: Seq<(Seq<char>, JsonView)>, name: Seq<char>, i: int)
    requires
        0 <= i < list.len(),
        list[i].0 == name,
        forall|j: int| 0 <= j < i ==> (#[trigger] list[j]).0 != name,
    ensures
        value_of(list, name) == Some(list[i].1),
    decreases i,
{
    if i > 0 {
        assert(list[0].0 != name);
        let rest = list.drop_first();
        assert forall|j: int| 0 <= j < i - 1 implies (#[trigger] rest[j]).0 != name by {
            assert(rest[j] == list[j + 1]);
        }
        law_lookup_finds_the_first(rest, name, i - 1);
    }
}

/// Looking a name up gives nothing where no member has it.
pub proof fn law_lookup_finds_nothing_else(list: Seq<(Seq<char>, JsonView)>, name: Seq<char>)
    requires
        forall|j: int| 0 <= j < list.len() ==> (#[trigger] list[j]).0 != name,
    ensures
        value_of(list, name) is None,
    decreases list.len(),
{
    if list.len() > 0 {
        assert(list[0].0 != name);
        let rest = list.drop_first();
        assert forall|j: int| 0 <= j < rest.len() implies (#[trigger] rest[j]).0 != name by {
            assert(rest[j] == list[j + 1]);
        }
        law_lookup_finds_nothing_else(rest, name);
    }
}

/// JSON values stand for what they hold.
pub proof fn law_json_stands_for_what_it_holds(b: bool, n: u64, text: String)
    ensures
        Json::Null@ == JsonView::Null,
        Json::Bool(b)@ == JsonView::Bool(b),
        Json::Unsigned(n)@ == JsonView::Unsigned(n),
        Json::Text(text)@ == JsonView::Text(text@),
        Json::Other(text)@ == JsonView::Other(text@),
{
}

/// Lists of members stand for their members, one by one.
pub proof fn law_members_stand_for_what_they_hold(
    list: Vec<(String, Json)>,
    raw: Vec<(String, Vec<u8>)>,
)
    ensures
        members_of(list@).len() == list@.len(),
        forall|i: int|
            0 <= i < list@.len() ==> #[trigger] members_of(list@)[i] == (list@[i].0@, list@[i].1@),
        optional_members_of(Some(list)) == Some(members_of(list@)),
        optional_members_of(None) is None,
        raw_members_of(raw@).len() == raw@.len(),
        forall|i: int|
            0 <= i < raw@.len() ==> #[trigger] raw_members_of(raw@)[i] == (raw@[i].0@, raw@[i].1@),
        optional_raw_members_of(Some(raw)) == Some(raw_members_of(raw@)),
        optional_raw_members_of(None) is None,
{
}

/// A member behind a mark, up to its value.
pub proof fn lemma_member_behind(mark: char, name: Seq<char>, value: JsonView, rest: Seq<char>)
    requires
        json_quoted(name) == seq!['"'] + name + seq!['"'],
    ensures
        seq![mark] + (member_text((name, value)) + rest) == (seq![mark, '"'] + name + seq!['"', ':']) + (
        json_text(value) + rest),
{
    assert(seq![mark] + (member_text((name, value)) + rest) =~= (seq![mark, '"'] + name + seq![
        '"',
        ':',
    ]) + (json_text(value) + rest));
}

/// A member of an object as it is written: the text of its name with the white space before it, the
/// name, the white space before the colon, the text of the value with the white space before it, and
/// the white space behind.
pub struct MemberPart {
    pub name_text: Seq<u8>,
    pub name: Seq<char>,
    pub gap: Seq<u8>,
    pub value: Seq<u8>,
    pub after: Seq<u8>,
}

/// Whether bytes are spaces, tabs, line feeds and carriage returns.
pub open spec fn blank_bytes(bytes: Seq<u8>) -> bool {
    forall|i: int|
        0 <= i < bytes.len() ==> #[trigger] bytes[i] == 0x20 || bytes[i] == 0x09 || bytes[i] == 0x0a
            || bytes[i] == 0x0d
}

/// What is written from the value of the first member on.
pub open spec fn from_value(parts: Seq<MemberPart>, tail: Seq<u8>) -> Seq<u8>
    decreases parts.len(), 0nat,
{
    if parts.len() == 0 {
        tail
    } else {
        parts[0].value + (parts[0].after + if parts.len() == 1 {
            seq![0x7du8] + tail
        } else {
            seq![0x2cu8] + from_name(parts.drop_first(), tail)
        })
    }
}

/// Members as they are written up to the end of the text: each name with a colon and its value, commas
/// between them, a brace behind the last, and `tail`.
pub open spec fn from_name(parts: Seq<MemberPart>, tail: Seq<u8>) -> Seq<u8>
    decreases parts.len(), 1nat,
{
    if parts.len() == 0 {
        tail
    } else {
        parts[0].name_text + (parts[0].gap + (seq![0x3au8] + from_value(parts, tail)))
    }
}

/// Whether the members are where their parts say: names are strings and end where their texts do, and
/// so do values.
pub open spec fn parts_fit(parts: Seq<MemberPart>, tail: Seq<u8>) -> bool
    decreases parts.len(),
{
    if parts.len() == 0 {
        blank_bytes(tail)
    } else {
        &&& parts[0].name_text.len() > 0
        &&& value_end(from_name(parts, tail)) == Some(parts[0].name_text.len())
        &&& scalar_of(parts[0].name_text) == Some(JsonView::Text(parts[0].name))
        &&& blank_bytes(parts[0].gap)
        &&& parts[0].value.len() > 0
        &&& value_end(from_value(parts, tail)) == Some(parts[0].value.len())
        &&& blank_bytes(parts[0].after)
        &&& parts_fit(parts.drop_first(), tail)
    }
}

/// The names of the members, each with the text of its value.
pub open spec fn parts_stated(parts: Seq<MemberPart>) -> Seq<(Seq<char>, Seq<u8>)> {
    parts.map_values(|part: MemberPart| (part.name, part.value))
}

/// Whether white space and then something else than a closing brace stands at the start of a text.
pub open spec fn opens_no_brace(text: Seq<u8>) -> bool {
    exists|i: int|
        0 <= i < text.len() && blank_bytes(#[trigger] text.take(i)) && text[i] != 0x20 && text[i]
            != 0x09 && text[i] != 0x0a && text[i] != 0x0d && text[i] != 0x7d
}

/// Whether a text is an object with no members.
pub open spec fn empty_object(bytes: Seq<u8>) -> bool {
    exists|before: Seq<u8>, inside: Seq<u8>, tail: Seq<u8>|
        blank_bytes(before) && blank_bytes(inside) && blank_bytes(tail) && bytes
            == #[trigger] (before + (seq![0x7bu8] + (inside + (seq![0x7du8] + tail))))
}

/// Whether a text is an object with members, which state `list`.
pub open spec fn filled_object(bytes: Seq<u8>, list: Seq<(Seq<char>, Seq<u8>)>) -> bool {
    exists|before: Seq<u8>, parts: Seq<MemberPart>, tail: Seq<u8>|
        parts.len() > 0 && blank_bytes(before) && parts_fit(parts, tail) && list == parts_stated(parts)
            && bytes == #[trigger] (before + (seq![0x7bu8] + from_name(parts, tail)))
}

proof fn lemma_space_run(bytes: Seq<u8>, at: int, run: int)
    requires
        0 <= at <= at + run <= bytes.len(),
        blank_bytes(bytes.subrange(at, at + run)),
        at + run < bytes.len() ==> bytes[at + run] != 0x20 && bytes[at + run] != 0x09 && bytes[at + run]
            != 0x0a && bytes[at + run] != 0x0d,
    ensures
        space_end(bytes, at) == at + run,
    decreases run,
{
    if run > 0 {
        let part = bytes.subrange(at, at + run);
        assert(part[0] == bytes[at]);
        let rest = bytes.subrange(at + 1, at + run);
        assert forall|i: int| 0 <= i < rest.len() implies #[trigger] rest[i] == 0x20 || rest[i] == 0x09
            || rest[i] == 0x0a || rest[i] == 0x0d by {
            assert(rest[i] == part[i + 1]);
        }
        lemma_space_run(bytes, at + 1, run - 1);
    }
}

proof fn lemma_space_end(bytes: Seq<u8>, at: int)
    requires
        0 <= at <= bytes.len(),
    ensures
        at <= space_end(bytes, at) <= bytes.len(),
        blank_bytes(bytes.subrange(at, space_end(bytes, at))),
    decreases bytes.len() - at,
{
    if at < bytes.len() && json_space(bytes[at]) {
        lemma_space_end(bytes, at + 1);
        let end = space_end(bytes, at + 1);
        let rest = bytes.subrange(at + 1, end);
        let whole = bytes.subrange(at, end);
        assert forall|i: int| 0 <= i < whole.len() implies #[trigger] whole[i] == 0x20 || whole[i]
            == 0x09 || whole[i] == 0x0a || whole[i] == 0x0d by {
            if i > 0 {
                assert(whole[i] == rest[i - 1]);
            }
        }
    }
}

proof fn lemma_behind(bytes: Seq<u8>, at: int, head: Seq<u8>, rest: Seq<u8>)
    requires
        0 <= at <= bytes.len(),
        bytes.skip(at) == head + rest,
    ensures
        at + head.len() <= bytes.len(),
        bytes.subrange(at, at + head.len()) == head,
        bytes.skip(at + head.len()) == rest,
        rest.len() > 0 ==> at + head.len() < bytes.len() && bytes[at + head.len()] == rest[0],
        rest.len() == 0 ==> at + head.len() == bytes.len(),
{
    let all = bytes.skip(at);
    assert(all.len() == bytes.len() - at);
    assert(bytes.subrange(at, at + head.len()) =~= head) by {
        assert forall|i: int| 0 <= i < head.len() implies bytes.subrange(at, at + head.len())[i]
            == head[i] by {
            assert(all[i] == bytes[at + i]);
        }
    }
    assert(bytes.skip(at + head.len()) =~= rest) by {
        assert forall|i: int| 0 <= i < rest.len() implies bytes.skip(at + head.len())[i] == rest[i] by {
            assert(all[head.len() + i] == bytes[at + head.len() + i]);
        }
    }
    if rest.len() > 0 {
        assert(bytes.skip(at + head.len())[0] == bytes[at + head.len()]);
    }
}

proof fn lemma_members_are_read(bytes: Seq<u8>, at: int, parts: Seq<MemberPart>, tail: Seq<u8>)
    requires
        0 <= at <= bytes.len(),
        parts.len() > 0,
        parts_fit(parts, tail),
        bytes.skip(at) == from_name(parts, tail),
    ensures
        members_from(bytes, at) == Some(parts_stated(parts)),
    decreases parts.len(),
{
    let part = parts[0];
    let member = (part.name, part.value);
    let value_on = from_value(parts, tail);
    let ending = if parts.len() == 1 {
        seq![0x7du8] + tail
    } else {
        seq![0x2cu8] + from_name(parts.drop_first(), tail)
    };
    lemma_behind(bytes, at, part.name_text, part.gap + (seq![0x3au8] + value_on));
    let name_end = at + part.name_text.len();
    lemma_behind(bytes, name_end, part.gap, seq![0x3au8] + value_on);
    let colon = name_end + part.gap.len();
    lemma_space_run(bytes, name_end, part.gap.len() as int);
    lemma_behind(bytes, colon, seq![0x3au8], value_on);
    let start = colon + 1;
    lemma_behind(bytes, start, part.value, part.after + ending);
    let end = start + part.value.len();
    lemma_behind(bytes, end, part.after, ending);
    lemma_space_run(bytes, end, part.after.len() as int);
    let mark = end + part.after.len();
    assert(member_from(bytes, at) == Some((member, end)));
    assert(parts_stated(parts)[0] == member);
    if parts.len() == 1 {
        lemma_behind(bytes, mark, seq![0x7du8], tail);
        assert(parts_fit(parts.drop_first(), tail));
        assert(bytes.subrange(mark + 1, mark + 1 + tail.len()) =~= tail) by {
            assert(bytes.skip(mark + 1) == tail);
        }
        lemma_space_run(bytes, mark + 1, tail.len() as int);
        assert(parts_stated(parts) =~= seq![member]);
    } else {
        lemma_behind(bytes, mark, seq![0x2cu8], from_name(parts.drop_first(), tail));
        lemma_members_are_read(bytes, mark + 1, parts.drop_first(), tail);
        assert(parts_stated(parts) =~= seq![member] + parts_stated(parts.drop_first()));
    }
}

/// Every object is read: its members are found, all of them and in order, with white space wherever
/// JSON permits it.
pub proof fn law_object_is_read(
    before: Seq<u8>,
    inside: Seq<u8>,
    parts: Seq<MemberPart>,
    tail: Seq<u8>,
)
    requires
        blank_bytes(before),
    ensures
        parts.len() > 0 && parts_fit(parts, tail) && opens_no_brace(parts[0].name_text)
            ==> object_members(before + (seq![0x7bu8] + from_name(parts, tail))) == Some(
            parts_stated(parts),
        ),
        blank_bytes(inside) && blank_bytes(tail) ==> object_members(
            before + (seq![0x7bu8] + (inside + (seq![0x7du8] + tail))),
        ) == Some(Seq::<(Seq<char>, Seq<u8>)>::empty()),
{
    if parts.len() > 0 && parts_fit(parts, tail) && opens_no_brace(parts[0].name_text) {
        let on = from_name(parts, tail);
        let bytes = before + (seq![0x7bu8] + on);
        assert(bytes.skip(0) =~= bytes);
        lemma_behind(bytes, 0, before, seq![0x7bu8] + on);
        lemma_space_run(bytes, 0, before.len() as int);
        lemma_behind(bytes, before.len() as int, seq![0x7bu8], on);
        let at = before.len() as int + 1;
        let text = parts[0].name_text;
        let i = choose|i: int|
            0 <= i < text.len() && blank_bytes(#[trigger] text.take(i)) && text[i] != 0x20 && text[i]
                != 0x09 && text[i] != 0x0a && text[i] != 0x0d && text[i] != 0x7d;
        let rest = parts[0].gap + (seq![0x3au8] + from_value(parts, tail));
        lemma_behind(bytes, at, text, rest);
        let named = bytes.subrange(at, at + text.len());
        assert(named[i] == bytes[at + i]);
        assert(bytes.subrange(at, at + i) =~= text.take(i)) by {
            assert forall|j: int| 0 <= j < i implies bytes.subrange(at, at + i)[j] == text.take(i)[j] by {
                assert(named[j] == bytes[at + j]);
            }
        }
        lemma_space_run(bytes, at, i);
        lemma_members_are_read(bytes, at, parts, tail);
    }
    if blank_bytes(inside) && blank_bytes(tail) {
        let on = inside + (seq![0x7du8] + tail);
        let bytes = before + (seq![0x7bu8] + on);
        assert(bytes.skip(0) =~= bytes);
        lemma_behind(bytes, 0, before, seq![0x7bu8] + on);
        lemma_space_run(bytes, 0, before.len() as int);
        lemma_behind(bytes, before.len() as int, seq![0x7bu8], on);
        let at = before.len() as int + 1;
        lemma_behind(bytes, at, inside, seq![0x7du8] + tail);
        lemma_space_run(bytes, at, inside.len() as int);
        let mark = at + inside.len();
        lemma_behind(bytes, mark, seq![0x7du8], tail);
        assert(bytes.subrange(mark + 1, mark + 1 + tail.len()) =~= tail) by {
            assert(bytes.skip(mark + 1) == tail);
        }
        lemma_space_run(bytes, mark + 1, tail.len() as int);
    }
}

proof fn lemma_cut(bytes: Seq<u8>, at: int, end: int)
    requires
        0 <= at <= end <= bytes.len(),
    ensures
        bytes.skip(at) == bytes.subrange(at, end) + bytes.skip(end),
{
    assert(bytes.skip(at) =~= bytes.subrange(at, end) + bytes.skip(end));
}

proof fn lemma_cut_one(bytes: Seq<u8>, at: int)
    requires
        0 <= at < bytes.len(),
    ensures
        bytes.skip(at) == seq![bytes[at]] + bytes.skip(at + 1),
{
    assert(bytes.skip(at) =~= seq![bytes[at]] + bytes.skip(at + 1));
}

/// The parts of the members that are read from `at` on, and what follows.
proof fn lemma_members_have_parts(bytes: Seq<u8>, at: int) -> (res: (Seq<MemberPart>, Seq<u8>))
    requires
        0 <= at <= bytes.len(),
        members_from(bytes, at) is Some,
    ensures
        res.0.len() > 0,
        parts_fit(res.0, res.1),
        bytes.skip(at) == from_name(res.0, res.1),
        members_from(bytes, at) == Some(parts_stated(res.0)),
    decreases bytes.len() - at,
{
    let (member, end) = member_from(bytes, at)->0;
    let name_end = end_from(bytes, at)->0;
    lemma_space_end(bytes, name_end);
    let colon = space_end(bytes, name_end);
    let start = colon + 1;
    lemma_space_end(bytes, end);
    let mark = space_end(bytes, end);
    let part = MemberPart {
        name_text: bytes.subrange(at, name_end),
        name: member.0,
        gap: bytes.subrange(name_end, colon),
        value: bytes.subrange(start, end),
        after: bytes.subrange(end, mark),
    };
    lemma_cut(bytes, at, name_end);
    lemma_cut(bytes, name_end, colon);
    lemma_cut_one(bytes, colon);
    lemma_cut(bytes, start, end);
    lemma_cut(bytes, end, mark);
    lemma_cut_one(bytes, mark);
    if next_is(bytes, end, '}' as u8) && ends_at(bytes, mark + 1) {
        lemma_space_end(bytes, mark + 1);
        let tail = bytes.skip(mark + 1);
        assert(tail =~= bytes.subrange(mark + 1, bytes.len() as int));
        let parts = seq![part];
        assert(parts.drop_first() =~= Seq::<MemberPart>::empty());
        assert(from_value(parts, tail) == bytes.skip(start));
        assert(from_name(parts, tail) == bytes.skip(at));
        assert(parts_fit(parts.drop_first(), tail));
        assert(parts_stated(parts) =~= seq![member]);
        (parts, tail)
    } else {
        let (rest, tail) = lemma_members_have_parts(bytes, mark + 1);
        let parts = seq![part] + rest;
        assert(parts.drop_first() =~= rest);
        assert(from_value(parts, tail) == bytes.skip(start));
        assert(from_name(parts, tail) == bytes.skip(at));
        assert(parts_stated(parts) =~= seq![member] + parts_stated(rest));
        (parts, tail)
    }
}

/// Nothing else is read as an object: not one without its braces, with anything but white space around
/// it, or with a comma or a colon too few or too many.
pub proof fn law_nothing_else_is_an_object(bytes: Seq<u8>)
    ensures
        object_members(bytes) matches Some(list) ==> if list.len() == 0 {
            empty_object(bytes)
        } else {
            filled_object(bytes, list)
        },
{
    if object_members(bytes) is Some {
        lemma_space_end(bytes, 0);
        let open = space_end(bytes, 0);
        let before = bytes.subrange(0, open);
        assert(bytes.skip(0) =~= bytes);
        lemma_cut(bytes, 0, open);
        lemma_cut_one(bytes, open);
        lemma_space_end(bytes, open + 1);
        if next_is(bytes, open + 1, '}' as u8) {
            let mark = space_end(bytes, open + 1);
            let inside = bytes.subrange(open + 1, mark);
            lemma_cut(bytes, open + 1, mark);
            lemma_cut_one(bytes, mark);
            lemma_space_end(bytes, mark + 1);
            let tail = bytes.skip(mark + 1);
            assert(tail =~= bytes.subrange(mark + 1, bytes.len() as int));
            assert(bytes == before + (seq![0x7bu8] + (inside + (seq![0x7du8] + tail))));
            assert(blank_bytes(before) && blank_bytes(inside) && blank_bytes(tail));
        } else {
            let (parts, tail) = lemma_members_have_parts(bytes, open + 1);
            assert(parts_stated(parts).len() == parts.len());
            assert(bytes == before + (seq![0x7bu8] + from_name(parts, tail)));
        }
    }
}

/// A string is written between quotation marks, one character after the other: quotation mark and
/// backslash behind a backslash, the control characters with their short or their hexadecimal escape,
/// and every other character as it is.
pub proof fn law_json_string_spells_the_text(before: Seq<char>, c: char, after: Seq<char>)
    ensures
        ({
            let code = c as int;
            let written = if code == 0x22 || code == 0x5c {
                seq!['\\', c]
            } else if code == 0x08 {
                seq!['\\', 'b']
            } else if code == 0x09 {
                seq!['\\', 't']
            } else if code == 0x0a {
                seq!['\\', 'n']
            } else if code == 0x0c {
                seq!['\\', 'f']
            } else if code == 0x0d {
                seq!['\\', 'r']
            } else if code < 0x10 {
                seq!['\\', 'u', '0', '0', '0', hex_digit(code)]
            } else if code < 0x20 {
                seq!['\\', 'u', '0', '0', '1', hex_digit(code - 0x10)]
            } else {
                seq![c]
            };
            let head = json_quoted(before).drop_last();
            let tail = json_quoted(after).drop_first();
            json_quoted(before + seq![c] + after) == head + written + tail
        }),
        json_quoted(Seq::empty()) == seq!['"', '"'],
{
    let f = |c: char| json_escape(c);
    lemma_expand_join(before + seq![c], after, f);
    lemma_expand_join(before, seq![c], f);
    assert(seq![c].drop_first() =~= Seq::<char>::empty());
    assert(expand(seq![c].drop_first(), f) == Seq::<char>::empty());
    assert(expand(seq![c], f) =~= json_escape(c));
    let head = json_quoted(before).drop_last();
    let tail = json_quoted(after).drop_first();
    assert(head =~= seq!['"'] + expand(before, f));
    assert(tail =~= expand(after, f) + seq!['"']);
    assert(json_quoted(before + seq![c] + after) =~= head + json_escape(c) + tail);
    assert(json_quoted(Seq::empty()) =~= seq!['"', '"']);
}

/// Values are written as JSON writes them, and members as their name, a colon and their value.
pub proof fn law_json_values_are_written(
    n: u64,
    text: Seq<char>,
    name: Seq<char>,
    value: JsonView,
    rest: Seq<(Seq<char>, JsonView)>,
)
    ensures
        json_text(JsonView::Null) == "null"@,
        json_text(JsonView::Bool(true)) == "true"@,
        json_text(JsonView::Bool(false)) == "false"@,
        json_text(JsonView::Unsigned(n)) == decimal_digits(n as nat),
        json_text(JsonView::Text(text)) == json_quoted(text),
        json_text(JsonView::Other(text)) == text,
        object_text(Seq::empty()) == seq!['{', '}'],
        object_text(seq![(name, value)]) == seq!['{'] + (json_quoted(name) + seq![':'] + json_text(
            value,
        )) + seq!['}'],
        rest.len() > 0 ==> object_text(seq![(name, value)] + rest) == seq!['{'] + (json_quoted(name)
            + seq![':'] + json_text(value)) + seq![','] + object_text(rest).drop_first(),
{
    assert(object_text(Seq::empty()) =~= seq!['{', '}']);
    if rest.len() > 0 {
        let list = seq![(name, value)] + rest;
        assert(list.drop_first() =~= rest);
        assert(object_text(rest).drop_first() =~= members_text(rest) + seq!['}']);
        assert(object_text(list) =~= seq!['{'] + member_text((name, value)) + seq![','] + (members_text(
            rest,
        ) + seq!['}']));
    }
}

} // verus!
