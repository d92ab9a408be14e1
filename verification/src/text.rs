//! Text helpers.
use vstd::prelude::*;

verus! {

/// The bytes of a text.
pub open spec fn utf8(s: Seq<char>) -> Seq<u8> {
    vstd::utf8::encode_utf8(s)
}

/// The characters with the Unicode property `White_Space`.
pub open spec fn is_white_space(c: char) -> bool {
    ||| '\u{9}' <= c <= '\u{d}'
    ||| c == '\u{20}'
    ||| c == '\u{85}'
    ||| c == '\u{a0}'
    ||| c == '\u{1680}'
    ||| '\u{2000}' <= c <= '\u{200a}'
    ||| c == '\u{2028}'
    ||| c == '\u{2029}'
    ||| c == '\u{202f}'
    ||| c == '\u{205f}'
    ||| c == '\u{3000}'
}

/// The text without white space at either end.
pub open spec fn trimmed(s: Seq<char>) -> Seq<char>
    decreases s.len(),
{
    if s.len() > 0 && is_white_space(s.first()) {
        trimmed(s.drop_first())
    } else if s.len() > 0 && is_white_space(s.last()) {
        trimmed(s.drop_last())
    } else {
        s
    }
}

/// What follows `prefix`; `None` unless the text begins with it.
pub open spec fn after_prefix(s: Seq<char>, prefix: Seq<char>) -> Option<Seq<char>> {
    if prefix.is_prefix_of(s) {
        Some(s.skip(prefix.len() as int))
    } else {
        None
    }
}

/// Decimal digits of a number.
pub open spec fn decimal(n: nat) -> Seq<char>
    decreases n,
{
    if n < 10 {
        seq![('0' as int + n) as char]
    } else {
        decimal(n / 10).push(('0' as int + n % 10) as char)
    }
}

/// The text that bytes are shown as, whether or not they are UTF-8.
pub uninterp spec fn lossy_of(bytes: Seq<u8>) -> Seq<char>;

/// Calls `String::from_utf8_lossy`: bytes that are UTF-8 give their text, and what is not UTF-8 is
/// replaced. The result depends on the bytes alone; how much one replacement character stands for
/// is left unsaid.
#[verifier::external_body]
pub(crate) fn lossy(bytes: &[u8]) -> (r: String)
    ensures
        r@ == lossy_of(bytes@),
        vstd::utf8::valid_utf8(bytes@) ==> r@ == vstd::utf8::decode_utf8(bytes@),
{
    String::from_utf8_lossy(bytes).into_owned()
}

fn white_space(c: char) -> (r: bool)
    ensures
        r == is_white_space(c),
{
    ('\u{9}' <= c && c <= '\u{d}') || c == '\u{20}' || c == '\u{85}' || c == '\u{a0}' || c
        == '\u{1680}' || ('\u{2000}' <= c && c <= '\u{200a}') || c == '\u{2028}' || c
        == '\u{2029}' || c == '\u{202f}' || c == '\u{205f}' || c == '\u{3000}'
}

fn digit(n: u32) -> (r: &'static str)
    requires
        n < 10,
    ensures
        r@ == seq![('0' as int + n) as char],
{
    let r = match n {
        0 => "0",
        1 => "1",
        2 => "2",
        3 => "3",
        4 => "4",
        5 => "5",
        6 => "6",
        7 => "7",
        8 => "8",
        _ => "9",
    };
    proof {
        reveal_strlit("0");
        reveal_strlit("1");
        reveal_strlit("2");
        reveal_strlit("3");
        reveal_strlit("4");
        reveal_strlit("5");
        reveal_strlit("6");
        reveal_strlit("7");
        reveal_strlit("8");
        reveal_strlit("9");
    }
    assert(r@ =~= seq![('0' as int + n) as char]);
    r
}

/// Appends the decimal digits of a number.
pub fn append_decimal(text: &mut String, n: u32)
    ensures
        final(text)@ == old(text)@ + decimal(n as nat),
    decreases n,
{
    if n >= 10 {
        append_decimal(text, n / 10);
    }
    text.append(digit(n % 10));
    assert(text@ =~= old(text)@ + decimal(n as nat));
}

fn characters(s: &str) -> (r: Vec<char>)
    ensures
        r@ == s@,
{
    let mut found: Vec<char> = Vec::new();
    for c in iter: s.chars()
        invariant
            found@ == s@.take(iter.index() as int),
            iter.seq() == s@,
    {
        found.push(c);
        assert(found@ =~= s@.take(iter.index() + 1));
    }
    assert(found@ =~= s@);
    found
}

/// The text without white space at either end.
pub fn trim(s: &str) -> (r: &str)
    ensures
        r@ == trimmed(s@),
{
    let chars = characters(s);
    let mut start: usize = 0;
    let mut end: usize = chars.len();
    assert(s@.subrange(0, end as int) =~= s@);
    while start < end && white_space(chars[start])
        invariant
            chars@ == s@,
            start <= end == s@.len(),
            trimmed(s@.subrange(start as int, end as int)) == trimmed(s@),
        decreases end - start,
    {
        assert(s@.subrange(start as int, end as int).drop_first() =~= s@.subrange(
            start + 1,
            end as int,
        ));
        start = start + 1;
    }
    while start < end && white_space(chars[end - 1])
        invariant
            chars@ == s@,
            start <= end <= s@.len(),
            start < end ==> !is_white_space(s@[start as int]),
            trimmed(s@.subrange(start as int, end as int)) == trimmed(s@),
        decreases end - start,
    {
        assert(s@.subrange(start as int, end as int).drop_last() =~= s@.subrange(
            start as int,
            end - 1,
        ));
        end = end - 1;
    }
    s.substring_char(start, end)
}

/// What follows `prefix`, or `None` unless the text begins with it.
pub fn strip_prefix<'a>(s: &'a str, prefix: &str) -> (r: Option<&'a str>)
    ensures
        match r {
            Some(rest) => after_prefix(s@, prefix@) == Some(rest@),
            None => after_prefix(s@, prefix@) is None,
        },
{
    let len: usize = s.unicode_len();
    let count: usize = prefix.unicode_len();
    if count > len {
        return None;
    }
    let mut i: usize = 0;
    while i < count
        invariant
            i <= count <= len,
            len == s@.len(),
            count == prefix@.len(),
            forall|k: int| 0 <= k < i ==> s@[k] == prefix@[k],
        decreases count - i,
    {
        if s.get_char(i) != prefix.get_char(i) {
            assert(s@.take(count as int)[i as int] != prefix@[i as int]);
            return None;
        }
        i = i + 1;
    }
    assert(prefix@ =~= s@.take(count as int));
    let rest = s.substring_char(count, len);
    assert(rest@ =~= s@.skip(count as int));
    Some(rest)
}

/// White space is these characters and no others.
pub proof fn lemma_white_space(c: char)
    ensures
        is_white_space(c) <==> seq![
            0x09u32,
            0x0a,
            0x0b,
            0x0c,
            0x0d,
            0x20,
            0x85,
            0xa0,
            0x1680,
            0x2000,
            0x2001,
            0x2002,
            0x2003,
            0x2004,
            0x2005,
            0x2006,
            0x2007,
            0x2008,
            0x2009,
            0x200a,
            0x2028,
            0x2029,
            0x202f,
            0x205f,
            0x3000,
        ].contains(c as u32),
{
    let all = seq![
        0x09u32,
        0x0a,
        0x0b,
        0x0c,
        0x0d,
        0x20,
        0x85,
        0xa0,
        0x1680,
        0x2000,
        0x2001,
        0x2002,
        0x2003,
        0x2004,
        0x2005,
        0x2006,
        0x2007,
        0x2008,
        0x2009,
        0x200a,
        0x2028,
        0x2029,
        0x202f,
        0x205f,
        0x3000,
    ];
    assert(all[0] == 0x09 && all[1] == 0x0a && all[2] == 0x0b && all[3] == 0x0c && all[4] == 0x0d);
    assert(all[5] == 0x20 && all[6] == 0x85 && all[7] == 0xa0 && all[8] == 0x1680);
    assert(all[9] == 0x2000 && all[10] == 0x2001 && all[11] == 0x2002 && all[12] == 0x2003);
    assert(all[13] == 0x2004 && all[14] == 0x2005 && all[15] == 0x2006 && all[16] == 0x2007);
    assert(all[17] == 0x2008 && all[18] == 0x2009 && all[19] == 0x200a && all[20] == 0x2028);
    assert(all[21] == 0x2029 && all[22] == 0x202f && all[23] == 0x205f && all[24] == 0x3000);
}

#[verifier::opaque]
spec fn all_white(s: Seq<char>) -> bool {
    forall|i: int| 0 <= i < s.len() ==> is_white_space(#[trigger] s[i])
}

proof fn lemma_all_white_extends(s: Seq<char>, c: char)
    requires
        all_white(s),
        is_white_space(c),
    ensures
        all_white(seq![c] + s),
        all_white(s.push(c)),
{
    reveal(all_white);
    assert forall|i: int| 0 <= i < s.len() + 1 implies is_white_space(
        #[trigger] (seq![c] + s)[i],
    ) by {
        if i > 0 {
            assert((seq![c] + s)[i] == s[i - 1]);
        }
    }
    assert forall|i: int| 0 <= i < s.len() + 1 implies is_white_space(#[trigger] s.push(c)[i]) by {
        if i < s.len() {
            assert(s.push(c)[i] == s[i]);
        }
    }
}

proof fn lemma_trimmed_parts(s: Seq<char>) -> (cut: (Seq<char>, Seq<char>))
    ensures
        s == cut.0 + trimmed(s) + cut.1,
        all_white(cut.0),
        all_white(cut.1),
    decreases s.len(),
{
    if s.len() > 0 && is_white_space(s.first()) {
        let rest = s.drop_first();
        let (before, after) = lemma_trimmed_parts(rest);
        lemma_all_white_extends(before, s.first());
        assert(s =~= seq![s.first()] + rest);
        assert(seq![s.first()] + (before + trimmed(rest) + after) =~= (seq![s.first()] + before)
            + trimmed(rest) + after);
        (seq![s.first()] + before, after)
    } else if s.len() > 0 && is_white_space(s.last()) {
        let rest = s.drop_last();
        let (before, after) = lemma_trimmed_parts(rest);
        lemma_all_white_extends(after, s.last());
        assert(s =~= rest.push(s.last()));
        assert((before + trimmed(rest) + after).push(s.last()) =~= before + trimmed(rest)
            + after.push(s.last()));
        (before, after.push(s.last()))
    } else {
        reveal(all_white);
        assert(s =~= Seq::<char>::empty() + s + Seq::<char>::empty());
        (Seq::empty(), Seq::empty())
    }
}

proof fn lemma_trimmed_ends(s: Seq<char>)
    ensures
        trimmed(s).len() > 0 ==> !is_white_space(trimmed(s).first()) && !is_white_space(
            trimmed(s).last(),
        ),
    decreases s.len(),
{
    if s.len() > 0 && is_white_space(s.first()) {
        lemma_trimmed_ends(s.drop_first());
    } else if s.len() > 0 && is_white_space(s.last()) {
        lemma_trimmed_ends(s.drop_last());
    }
}

/// Trimming takes white space from both ends and nothing else: the text is what was taken from its
/// beginning, what is left, and what was taken from its end.
pub proof fn lemma_trimmed(s: Seq<char>) -> (cut: (Seq<char>, Seq<char>))
    ensures
        s == cut.0 + trimmed(s) + cut.1,
        forall|i: int| 0 <= i < cut.0.len() ==> is_white_space(#[trigger] cut.0[i]),
        forall|i: int| 0 <= i < cut.1.len() ==> is_white_space(#[trigger] cut.1[i]),
        trimmed(s).len() > 0 ==> !is_white_space(trimmed(s).first()) && !is_white_space(
            trimmed(s).last(),
        ),
{
    lemma_trimmed_ends(s);
    reveal(all_white);
    lemma_trimmed_parts(s)
}

/// A text without white space at its ends comes back from between white space.
pub proof fn lemma_trimmed_between(before: Seq<char>, s: Seq<char>, after: Seq<char>)
    requires
        forall|i: int| 0 <= i < before.len() ==> is_white_space(#[trigger] before[i]),
        forall|i: int| 0 <= i < after.len() ==> is_white_space(#[trigger] after[i]),
        s.len() > 0 ==> !is_white_space(s.first()) && !is_white_space(s.last()),
    ensures
        trimmed(before + s + after) == s,
    decreases before.len() + after.len(),
{
    let all = before + s + after;
    if before.len() > 0 {
        assert(all.first() == before[0]);
        assert(all.drop_first() =~= before.drop_first() + s + after);
        lemma_trimmed_between(before.drop_first(), s, after);
    } else if after.len() > 0 {
        assert(all.last() == after.last());
        if is_white_space(all.first()) {
            assert(s.len() == 0);
            assert(all.drop_first() =~= before + s + after.drop_first());
            lemma_trimmed_between(before, s, after.drop_first());
        } else {
            assert(all.drop_last() =~= before + s + after.drop_last());
            lemma_trimmed_between(before, s, after.drop_last());
        }
    } else {
        assert(all =~= s);
    }
}

/// Taking a prefix away undoes putting it there, and works only where it is there.
pub proof fn lemma_after_prefix(s: Seq<char>, prefix: Seq<char>, rest: Seq<char>)
    ensures
        after_prefix(s, prefix) == Some(rest) <==> s == prefix + rest,
{
    if after_prefix(s, prefix) == Some(rest) {
        assert(s =~= prefix + rest);
    }
    if s == prefix + rest {
        assert(prefix =~= s.take(prefix.len() as int));
        assert(rest =~= s.skip(prefix.len() as int));
    }
}

/// The number that decimal digits stand for.
pub open spec fn value_of(digits: Seq<char>) -> int
    decreases digits.len(),
{
    if digits.len() == 0 {
        0
    } else {
        10 * value_of(digits.drop_last()) + (digits.last() as int - '0' as int)
    }
}

/// The digits of a number stand for that number, without leading zeros.
pub proof fn lemma_decimal(n: nat)
    ensures
        value_of(decimal(n)) == n,
        decimal(n).len() > 0,
        decimal(n)[0] == '0' ==> n == 0 && decimal(n).len() == 1,
        forall|i: int| 0 <= i < decimal(n).len() ==> '0' <= #[trigger] decimal(n)[i] <= '9',
    decreases n,
{
    let d = decimal(n);
    if n < 10 {
        assert(d.drop_last() =~= seq![]);
        assert(value_of(d.drop_last()) == 0);
    } else {
        lemma_decimal(n / 10);
        assert(d.drop_last() =~= decimal(n / 10));
        assert(d[0] == decimal(n / 10)[0]);
        assert forall|i: int| 0 <= i < d.len() implies '0' <= #[trigger] d[i] <= '9' by {
            if i < d.len() - 1 {
                assert(d[i] == decimal(n / 10)[i]);
            }
        }
    }
}

} // verus!
