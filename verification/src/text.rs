//! Characters and strings: comparing, trimming, replacing and writing numbers.

use vstd::prelude::*;

verus! {

/// `String::push` appends the given character to the end of the string.
pub assume_specification[ String::push ](s: &mut String, c: char)
    ensures
        final(s)@ == old(s)@.push(c),
;

/// The characters of a text that may be missing.
pub open spec fn optional_text(s: Option<String>) -> Option<Seq<char>> {
    match s {
        Some(s) => Some(s@),
        None => None,
    }
}

/// Whether every character of `s` satisfies `p`.
pub open spec fn all_chars(s: Seq<char>, p: spec_fn(char) -> bool) -> bool {
    forall|i: int| 0 <= i < s.len() ==> p(#[trigger] s[i])
}

/// Each character of `s` replaced by the text that `f` gives for it.
pub open spec fn expand(s: Seq<char>, f: spec_fn(char) -> Seq<char>) -> Seq<char>
    decreases s.len(),
{
    if s.len() == 0 {
        Seq::empty()
    } else {
        f(s[0]) + expand(s.drop_first(), f)
    }
}

/// Expanding one character more appends that character's text.
pub proof fn lemma_expand_push(s: Seq<char>, c: char, f: spec_fn(char) -> Seq<char>)
    ensures
        expand(s.push(c), f) == expand(s, f) + f(c),
    decreases s.len(),
{
    if s.len() == 0 {
        assert(s.push(c).drop_first() =~= Seq::<char>::empty());
        assert(expand(s.push(c).drop_first(), f) == Seq::<char>::empty());
        assert(expand(s.push(c), f) =~= f(c));
        assert(expand(s, f) + f(c) =~= f(c));
    } else {
        lemma_expand_push(s.drop_first(), c, f);
        assert(s.push(c).drop_first() =~= s.drop_first().push(c));
        assert(expand(s.push(c), f) =~= expand(s, f) + f(c));
    }
}

/// If no expansion of a character holds anything but `p`, neither does the whole.
pub proof fn lemma_expand_all(s: Seq<char>, f: spec_fn(char) -> Seq<char>, p: spec_fn(char) -> bool)
    requires
        forall|c: char| all_chars(#[trigger] f(c), p),
    ensures
        all_chars(expand(s, f), p),
    decreases s.len(),
{
    if s.len() > 0 {
        lemma_expand_all(s.drop_first(), f, p);
        let head = f(s[0]);
        let tail = expand(s.drop_first(), f);
        assert(all_chars(head, p));
        assert forall|i: int| 0 <= i < (head + tail).len() implies p(#[trigger] (head + tail)[i]) by {
            if i < head.len() {
                assert(head[i] == (head + tail)[i]);
            } else {
                assert(tail[i - head.len()] == (head + tail)[i]);
            }
        }
    }
}

/// `s` without the longest run of characters satisfying `p` at its start.
pub open spec fn trim_start(s: Seq<char>, p: spec_fn(char) -> bool) -> Seq<char>
    decreases s.len(),
{
    if s.len() > 0 && p(s[0]) {
        trim_start(s.drop_first(), p)
    } else {
        s
    }
}

/// `s` without the longest run of characters satisfying `p` at its end.
pub open spec fn trim_end(s: Seq<char>, p: spec_fn(char) -> bool) -> Seq<char>
    decreases s.len(),
{
    if s.len() > 0 && p(s.last()) {
        trim_end(s.drop_last(), p)
    } else {
        s
    }
}

/// The characters with the Unicode property `White_Space`.
pub open spec fn white_space(c: char) -> bool {
    ||| '\u{9}' <= c <= '\u{d}'
    ||| c == ' '
    ||| c == '\u{85}'
    ||| c == '\u{a0}'
    ||| c == '\u{1680}'
    ||| '\u{2000}' <= c <= '\u{200a}'
    ||| c == '\u{2028}'
    ||| c == '\u{2029}'
    ||| c == '\u{202f}'
    ||| c == '\u{205f}'
    ||| c == '\u{3000}'
}

pub open spec fn slash(c: char) -> bool {
    c == '/'
}

/// The decimal digits of `n`, without leading zeros.
pub open spec fn decimal_digits(n: nat) -> Seq<char>
    decreases n,
{
    if n < 10 {
        seq![digit_char(n)]
    } else {
        decimal_digits(n / 10).push(digit_char(n % 10))
    }
}

pub open spec fn digit_char(d: nat) -> char {
    ('0' as u8 + d) as u8 as char
}

/// Decimal digits are digits, and there is at least one.
pub proof fn lemma_decimal_digits(n: nat)
    ensures
        decimal_digits(n).len() > 0,
        all_chars(decimal_digits(n), |c: char| '0' <= c <= '9'),
    decreases n,
{
    if n >= 10 {
        lemma_decimal_digits(n / 10);
        assert forall|i: int| 0 <= i < decimal_digits(n).len() implies '0' <= #[trigger]
            decimal_digits(n)[i] <= '9' by {
            if i < decimal_digits(n / 10).len() {
                assert(decimal_digits(n)[i] == decimal_digits(n / 10)[i]);
            }
        }
    }
}

/// Decimal digits tell which number they stand for.
pub proof fn law_decimal_digits_are_injective(a: nat, b: nat)
    requires
        decimal_digits(a) == decimal_digits(b),
    ensures
        a == b,
    decreases a,
{
    let s = decimal_digits(a);
    let t = decimal_digits(b);
    if a >= 10 {
        lemma_decimal_digits(a / 10);
    }
    if b >= 10 {
        lemma_decimal_digits(b / 10);
    }
    assert(s.last() == digit_char(a % 10));
    assert(t.last() == digit_char(b % 10));
    assert(a % 10 == b % 10);
    assert(a < 10 <==> s.len() == 1);
    assert(b < 10 <==> t.len() == 1);
    if a >= 10 {
        assert(s.drop_last() =~= decimal_digits(a / 10));
        assert(t.drop_last() =~= decimal_digits(b / 10));
        law_decimal_digits_are_injective(a / 10, b / 10);
    }
}

/// Two texts that are equal up to their first `c` and behind it fall apart in the same way.
pub proof fn lemma_split_first(a: Seq<char>, x: Seq<char>, b: Seq<char>, y: Seq<char>, c: char)
    requires
        a + seq![c] + x == b + seq![c] + y,
        !a.contains(c),
        !b.contains(c),
    ensures
        a == b,
        x == y,
{
    let s = a + seq![c] + x;
    let t = b + seq![c] + y;
    assert(s[a.len() as int] == c);
    assert(t[b.len() as int] == c);
    if a.len() < b.len() {
        assert(t[a.len() as int] == b[a.len() as int]);
    }
    if b.len() < a.len() {
        assert(s[b.len() as int] == a[b.len() as int]);
    }
    assert(a =~= s.take(a.len() as int));
    assert(b =~= t.take(b.len() as int));
    assert(x =~= s.skip(a.len() as int + 1));
    assert(y =~= t.skip(b.len() as int + 1));
}

/// Two texts that are equal up to their last `c` and behind it fall apart in the same way.
pub proof fn lemma_split_last(a: Seq<char>, x: Seq<char>, b: Seq<char>, y: Seq<char>, c: char)
    requires
        a + seq![c] + x == b + seq![c] + y,
        !x.contains(c),
        !y.contains(c),
    ensures
        a == b,
        x == y,
{
    let s = a + seq![c] + x;
    let t = b + seq![c] + y;
    assert(s[a.len() as int] == c);
    assert(t[b.len() as int] == c);
    assert(s.len() == a.len() + 1 + x.len());
    assert(t.len() == b.len() + 1 + y.len());
    if a.len() < b.len() {
        assert(s[b.len() as int] == x[b.len() - a.len() - 1]);
    }
    if b.len() < a.len() {
        assert(t[a.len() as int] == y[a.len() - b.len() - 1]);
    }
    assert(a =~= s.take(a.len() as int));
    assert(b =~= t.take(b.len() as int));
    assert(x =~= s.skip(a.len() as int + 1));
    assert(y =~= t.skip(b.len() as int + 1));
}

/// Whether two texts hold the same characters.
pub fn same_text(a: &str, b: &str) -> (res: bool)
    ensures
        res == (a@ == b@),
{
    a.to_owned() == b.to_owned()
}

/// The characters of a text.
pub fn chars_of(s: &str) -> (res: Vec<char>)
    ensures
        res@ == s@,
{
    let mut res: Vec<char> = Vec::new();
    for c in it: s.chars()
        invariant
            it.seq() == s@,
            res@ == s@.take(it.index()),
    {
        assert(s@.take(it.index() + 1) == s@.take(it.index()).push(c));
        res.push(c);
    }
    assert(s@.take(s@.len() as int) == s@);
    res
}

/// The text made of the characters from index `from` up to `to`.
pub fn text_of(chars: &Vec<char>, from: usize, to: usize) -> (res: String)
    requires
        from <= to <= chars@.len(),
    ensures
        res@ == chars@.subrange(from as int, to as int),
{
    let mut res = String::new();
    for i in from..to
        invariant
            from <= to <= chars@.len(),
            res@ == chars@.subrange(from as int, i as int),
    {
        assert(chars@.subrange(from as int, i + 1) == chars@.subrange(from as int, i as int).push(
            chars@[i as int],
        ));
        res.push(chars[i]);
    }
    res
}

/// Two texts, one behind the other.
pub fn join(a: &str, b: &str) -> (res: String)
    ensures
        res@ == a@ + b@,
{
    let mut res = a.to_owned();
    res.append(b);
    res
}

/// What follows `prefix` in `s`, where `s` starts with it.
pub fn strip_prefix(s: &str, prefix: &str) -> (res: Option<String>)
    ensures
        res is Some <==> prefix@.is_prefix_of(s@),
        res matches Some(rest) ==> s@ == prefix@ + rest@,
{
    let text = chars_of(s);
    let head = chars_of(prefix);
    if head.len() > text.len() {
        return None;
    }
    for i in 0..head.len()
        invariant
            head@ == prefix@,
            text@ == s@,
            head@.len() <= text@.len(),
            forall|j: int| 0 <= j < i ==> head@[j] == text@[j],
    {
        if head[i] != text[i] {
            assert(prefix@[i as int] != s@[i as int]);
            return None;
        }
    }
    assert(s@.subrange(0, prefix@.len() as int) =~= prefix@);
    let rest = text_of(&text, head.len(), text.len());
    assert(s@ =~= prefix@ + rest@);
    Some(rest)
}

/// Whether `c` has the Unicode property `White_Space`.
pub fn is_white_space(c: char) -> (res: bool)
    ensures
        res == white_space(c),
{
    ('\u{9}' <= c && c <= '\u{d}') || c == ' ' || c == '\u{85}' || c == '\u{a0}' || c == '\u{1680}'
        || ('\u{2000}' <= c && c <= '\u{200a}') || c == '\u{2028}' || c == '\u{2029}' || c
        == '\u{202f}' || c == '\u{205f}' || c == '\u{3000}'
}

/// Removes white space at both ends.
pub fn trim(s: &str) -> (res: String)
    ensures
        res@ == trim_end(trim_start(s@, |c: char| white_space(c)), |c: char| white_space(c)),
{
    let ghost p = |c: char| white_space(c);
    let chars = chars_of(s);
    let mut from: usize = 0;
    assert(s@.skip(0) =~= s@);
    while from < chars.len() && is_white_space(chars[from])
        invariant
            from <= chars@.len(),
            chars@ == s@,
            p == (|c: char| white_space(c)),
            trim_start(s@, p) == trim_start(s@.skip(from as int), p),
        decreases chars.len() - from,
    {
        assert(p(s@.skip(from as int)[0]));
        assert(s@.skip(from as int).drop_first() =~= s@.skip(from + 1));
        from = from + 1;
    }
    let ghost rest = s@.skip(from as int);
    assert(rest.len() > 0 ==> rest[0] == chars@[from as int]);
    assert(trim_start(s@, p) == rest);
    let mut to: usize = chars.len();
    assert(s@.subrange(from as int, to as int) =~= rest);
    while to > from && is_white_space(chars[to - 1])
        invariant
            from <= to <= chars@.len(),
            chars@ == s@,
            p == (|c: char| white_space(c)),
            trim_end(rest, p) == trim_end(s@.subrange(from as int, to as int), p),
        decreases to,
    {
        assert(s@.subrange(from as int, to as int).last() == chars@[to - 1]);
        assert(s@.subrange(from as int, to as int).drop_last() =~= s@.subrange(
            from as int,
            to - 1,
        ));
        to = to - 1;
    }
    if to > from {
        assert(s@.subrange(from as int, to as int).last() == chars@[to - 1]);
    }
    text_of(&chars, from, to)
}

/// Removes every `/` at the end.
pub fn trim_end_slashes(s: &str) -> (res: String)
    ensures
        res@ == trim_end(s@, |c: char| slash(c)),
{
    let ghost p = |c: char| slash(c);
    let chars = chars_of(s);
    let mut to: usize = chars.len();
    assert(s@.subrange(0, to as int) =~= s@);
    while to > 0 && chars[to - 1] == '/'
        invariant
            to <= chars@.len(),
            chars@ == s@,
            p == (|c: char| slash(c)),
            trim_end(s@, p) == trim_end(s@.subrange(0, to as int), p),
        decreases to,
    {
        assert(s@.subrange(0, to as int).last() == chars@[to - 1]);
        assert(s@.subrange(0, to as int).drop_last() =~= s@.subrange(0, to - 1));
        to = to - 1;
    }
    if to > 0 {
        assert(s@.subrange(0, to as int).last() == chars@[to - 1]);
    }
    text_of(&chars, 0, to)
}

/// Removes every `/` at the start.
pub fn trim_start_slashes(s: &str) -> (res: String)
    ensures
        res@ == trim_start(s@, |c: char| slash(c)),
{
    let ghost p = |c: char| slash(c);
    let chars = chars_of(s);
    let mut from: usize = 0;
    assert(s@.skip(0) =~= s@);
    while from < chars.len() && chars[from] == '/'
        invariant
            from <= chars@.len(),
            chars@ == s@,
            p == (|c: char| slash(c)),
            trim_start(s@, p) == trim_start(s@.skip(from as int), p),
        decreases chars.len() - from,
    {
        assert(p(s@.skip(from as int)[0]));
        assert(s@.skip(from as int).drop_first() =~= s@.skip(from + 1));
        from = from + 1;
    }
    assert(s@.skip(from as int) =~= chars@.subrange(from as int, chars@.len() as int));
    if from < chars.len() {
        assert(s@.skip(from as int)[0] == chars@[from as int]);
    }
    text_of(&chars, from, chars.len())
}

/// Writes `n` in decimal.
pub fn decimal(n: u64) -> (res: String)
    ensures
        res@ == decimal_digits(n as nat),
    decreases n,
{
    let digit: u8 = (n % 10) as u8;
    if n < 10 {
        let mut res = String::new();
        res.push((48 + digit) as char);
        res
    } else {
        let mut res = decimal(n / 10);
        res.push((48 + digit) as char);
        res
    }
}

/// Decimal digits spell the number: one digit stands for itself, and a further digit multiplies what
/// stands before it by ten.
pub proof fn law_decimal_digits_spell_the_number(n: nat, d: nat)
    requires
        d < 10,
    ensures
        decimal_digits(d).len() == 1,
        decimal_digits(d)[0] as int == 0x30 + d,
        n > 0 ==> {
            let longer = decimal_digits(10 * n + d);
            &&& longer.len() == decimal_digits(n).len() + 1
            &&& longer.drop_last() == decimal_digits(n)
            &&& longer.last() as int == 0x30 + d
        },
{
    assert(decimal_digits(d) =~= seq![digit_char(d)]);
    if n > 0 {
        assert((10 * n + d) / 10 == n);
        assert((10 * n + d) % 10 == d);
        assert(decimal_digits(10 * n + d).drop_last() =~= decimal_digits(n));
    }
}

proof fn lemma_trim_start_run(run: Seq<char>, rest: Seq<char>, p: spec_fn(char) -> bool)
    requires
        forall|i: int| 0 <= i < run.len() ==> p(#[trigger] run[i]),
        rest.len() > 0 ==> !p(rest[0]),
    ensures
        trim_start(run + rest, p) == rest,
    decreases run.len(),
{
    if run.len() == 0 {
        assert(run + rest =~= rest);
    } else {
        assert((run + rest)[0] == run[0]);
        assert((run + rest).drop_first() =~= run.drop_first() + rest);
        assert forall|i: int| 0 <= i < run.drop_first().len() implies p(
            #[trigger] run.drop_first()[i],
        ) by {
            assert(run.drop_first()[i] == run[i + 1]);
        }
        lemma_trim_start_run(run.drop_first(), rest, p);
    }
}

proof fn lemma_trim_end_run(rest: Seq<char>, run: Seq<char>, p: spec_fn(char) -> bool)
    requires
        forall|i: int| 0 <= i < run.len() ==> p(#[trigger] run[i]),
        rest.len() > 0 ==> !p(rest.last()),
    ensures
        trim_end(rest + run, p) == rest,
    decreases run.len(),
{
    if run.len() == 0 {
        assert(rest + run =~= rest);
    } else {
        assert((rest + run).last() == run.last());
        assert((rest + run).drop_last() =~= rest + run.drop_last());
        lemma_trim_end_run(rest, run.drop_last(), p);
    }
}

/// Whether all characters of a text are white space in Unicode.
pub open spec fn blank(s: Seq<char>) -> bool {
    forall|i: int|
        0 <= i < s.len() ==> {
            let c = #[trigger] s[i] as int;
            0x9 <= c <= 0xd || c == 0x20 || c == 0x85 || c == 0xa0 || c == 0x1680 || 0x2000 <= c
                <= 0x200a || c == 0x2028 || c == 0x2029 || c == 0x202f || c == 0x205f || c == 0x3000
        }
}

/// Whether a text is made of slashes.
pub open spec fn slashes(s: Seq<char>) -> bool {
    forall|i: int| 0 <= i < s.len() ==> #[trigger] s[i] as int == 0x2f
}

/// White space goes from both ends of a text, and nothing else does.
pub proof fn law_white_space_is_trimmed(before: Seq<char>, core: Seq<char>, after: Seq<char>)
    requires
        blank(before),
        blank(after),
        core.len() > 0 ==> !blank(seq![core[0]]) && !blank(seq![core.last()]),
    ensures
        trim_end(
            trim_start(before + core + after, |c: char| white_space(c)),
            |c: char| white_space(c),
        ) == core,
{
    let p = |c: char| white_space(c);
    assert forall|i: int| 0 <= i < before.len() implies p(#[trigger] before[i]) by {}
    assert forall|i: int| 0 <= i < after.len() implies p(#[trigger] after[i]) by {}
    if core.len() == 0 {
        let all = before + core + after;
        assert forall|i: int| 0 <= i < all.len() implies p(#[trigger] all[i]) by {
            if i < before.len() {
                assert(all[i] == before[i]);
            } else {
                assert(all[i] == after[i - before.len()]);
            }
        }
        lemma_trim_start_run(all, Seq::empty(), p);
        assert(all + Seq::<char>::empty() =~= all);
        assert(core =~= Seq::empty());
    } else {
        let first = seq![core[0]];
        let last = seq![core.last()];
        assert(!p(core[0])) by {
            if p(core[0]) {
                assert(blank(first));
            }
        }
        assert(!p(core.last())) by {
            if p(core.last()) {
                assert(blank(last));
            }
        }
        lemma_trim_start_run(before, core + after, p);
        assert(before + core + after =~= before + (core + after));
        lemma_trim_end_run(core, after, p);
    }
}

/// Slashes go from both ends of a text, and nothing else does.
pub proof fn law_slashes_are_trimmed(before: Seq<char>, core: Seq<char>, after: Seq<char>)
    requires
        slashes(before),
        slashes(after),
        core.len() > 0 ==> core[0] as int != 0x2f && core.last() as int != 0x2f,
    ensures
        trim_start(trim_end(before + core + after, |c: char| slash(c)), |c: char| slash(c)) == core,
        core.len() > 0 ==> trim_end(before + core + after, |c: char| slash(c)) == before + core,
{
    let p = |c: char| slash(c);
    assert forall|i: int| 0 <= i < before.len() implies p(#[trigger] before[i]) by {}
    assert forall|i: int| 0 <= i < after.len() implies p(#[trigger] after[i]) by {}
    if core.len() == 0 {
        let all = before + core + after;
        assert forall|i: int| 0 <= i < all.len() implies p(#[trigger] all[i]) by {
            if i < before.len() {
                assert(all[i] == before[i]);
            } else {
                assert(all[i] == after[i - before.len()]);
            }
        }
        lemma_trim_end_run(Seq::empty(), all, p);
        assert(Seq::<char>::empty() + all =~= all);
        assert(core =~= Seq::empty());
    } else {
        lemma_trim_end_run(before + core, after, p);
        lemma_trim_start_run(before, core, p);
    }
}

/// Expanding two texts one behind the other gives their expansions one behind the other.
pub proof fn lemma_expand_join(a: Seq<char>, b: Seq<char>, f: spec_fn(char) -> Seq<char>)
    ensures
        expand(a + b, f) == expand(a, f) + expand(b, f),
    decreases a.len(),
{
    if a.len() == 0 {
        assert(a + b =~= b);
        assert(expand(a, f) + expand(b, f) =~= expand(b, f));
    } else {
        lemma_expand_join(a.drop_first(), b, f);
        assert((a + b).drop_first() =~= a.drop_first() + b);
        assert(expand(a + b, f) =~= expand(a, f) + expand(b, f));
    }
}

/// A text that may be missing stands for its characters.
pub proof fn law_optional_text_stands_for_its_characters(s: String)
    ensures
        optional_text(Some(s)) == Some(s@),
        optional_text(None) is None,
{
}

} // verus!
