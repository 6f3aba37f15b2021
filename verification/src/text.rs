//! Numbers and bytes as text.
use vstd::prelude::*;

verus! {

/// The decimal digit for `d`, which is below ten.
pub open spec fn digit(d: nat) -> char {
    (48 + d) as char
}

/// `n` in decimal, without leading zeros.
pub open spec fn decimal(n: nat) -> Seq<char>
    decreases n,
{
    if n < 10 {
        seq![digit(n)]
    } else {
        decimal(n / 10).push(digit(n % 10))
    }
}

/// The lower-case hexadecimal digit for `d`, which is below sixteen.
pub open spec fn hex_digit(d: nat) -> char {
    if d < 10 {
        digit(d)
    } else {
        (87 + d) as char
    }
}

/// Two lower-case hexadecimal digits for each byte.
pub open spec fn hex(bytes: Seq<u8>) -> Seq<char> {
    Seq::new(
        bytes.len() * 2,
        |i: int|
            if i % 2 == 0 {
                hex_digit((bytes[i / 2] / 16) as nat)
            } else {
                hex_digit((bytes[i / 2] % 16) as nat)
            },
    )
}

/// `needle` stands somewhere in `text`.
pub open spec fn contains_text(text: Seq<char>, needle: Seq<char>) -> bool {
    exists|i: int|
        0 <= i && i + needle.len() <= text.len() && #[trigger] text.subrange(i, i + needle.len())
            == needle
}

/// The texts one after another, with `separator` between each two.
pub open spec fn joined(parts: Seq<Seq<char>>, separator: Seq<char>) -> Seq<char>
    decreases parts.len(),
{
    if parts.len() == 0 {
        Seq::empty()
    } else if parts.len() == 1 {
        parts[0]
    } else {
        joined(parts.drop_last(), separator) + separator + parts.last()
    }
}

/// What stands between two other texts is contained in the whole.
pub proof fn lemma_contains_middle(before: Seq<char>, middle: Seq<char>, behind: Seq<char>)
    ensures
        contains_text(before + middle + behind, middle),
{
    let text = before + middle + behind;
    let i = before.len() as int;
    assert(text.subrange(i, i + middle.len()) =~= middle);
}

/// A text that is contained in a part is contained in the whole.
pub proof fn lemma_contains_transitive(before: Seq<char>, part: Seq<char>, behind: Seq<char>, needle: Seq<char>)
    requires
        contains_text(part, needle),
    ensures
        contains_text(before + part + behind, needle),
{
    let i = choose|i: int|
        0 <= i && i + needle.len() <= part.len() && #[trigger] part.subrange(i, i + needle.len()) == needle;
    let text = before + part + behind;
    let at = before.len() + i;
    assert(text.subrange(at, at + needle.len()) =~= part.subrange(i, i + needle.len()));
}

/// Each of the texts is contained in what they are joined to.
pub proof fn law_joined_text_contains_its_parts(parts: Seq<Seq<char>>, separator: Seq<char>, i: int)
    requires
        0 <= i < parts.len(),
    ensures
        contains_text(joined(parts, separator), parts[i]),
    decreases parts.len(),
{
    let none = Seq::<char>::empty();
    if parts.len() == 1 {
        lemma_contains_middle(none, parts[0], none);
        assert(none + parts[0] + none =~= parts[0]);
    } else if i == parts.len() - 1 {
        let before = joined(parts.drop_last(), separator) + separator;
        lemma_contains_middle(before, parts[i], none);
        assert(before + parts[i] + none =~= joined(parts, separator));
    } else {
        let rest = parts.drop_last();
        law_joined_text_contains_its_parts(rest, separator, i);
        lemma_contains_transitive(none, joined(rest, separator), separator + parts.last(), parts[i]);
        assert(none + joined(rest, separator) + (separator + parts.last()) =~= joined(parts, separator));
    }
}

/// All texts together, without the separators.
pub open spec fn total_length(parts: Seq<Seq<char>>) -> int
    decreases parts.len(),
{
    if parts.len() == 0 {
        0
    } else {
        total_length(parts.drop_last()) + parts.last().len()
    }
}

/// A joined text is as long as its parts and one separator between each two.
pub proof fn law_joined_text_holds_nothing_else(parts: Seq<Seq<char>>, separator: Seq<char>)
    requires
        parts.len() > 0,
    ensures
        joined(parts, separator).len() == total_length(parts) + (parts.len() - 1) * separator.len(),
    decreases parts.len(),
{
    if parts.len() == 1 {
        assert(total_length(parts.drop_last()) == 0);
        assert((parts.len() - 1) * separator.len() == 0);
    } else {
        law_joined_text_holds_nothing_else(parts.drop_last(), separator);
        assert((parts.len() - 1) * separator.len() == (parts.len() - 2) * separator.len() + separator.len())
            by (nonlinear_arith);
    }
}

/// The number that a text of decimal digits stands for.
pub open spec fn number_of(text: Seq<char>) -> int
    decreases text.len(),
{
    if text.len() == 0 {
        0
    } else {
        number_of(text.drop_last()) * 10 + (text.last() as int - 48)
    }
}

/// The decimal text of a number stands for that number, and begins with zero only for
/// zero itself.
pub proof fn law_decimal_text_stands_for_the_number(n: nat)
    ensures
        number_of(decimal(n)) == n,
        decimal(n).len() > 0,
        n > 0 ==> decimal(n)[0] != '0',
    decreases n,
{
    reveal_with_fuel(number_of, 2);
    if n >= 10 {
        law_decimal_text_stands_for_the_number(n / 10);
        assert(decimal(n).drop_last() =~= decimal(n / 10));
    } else {
        assert(seq![digit(n)].drop_last() =~= Seq::<char>::empty());
    }
}

/// `text` ends in `tail`.
pub open spec fn ends_in(text: Seq<char>, tail: Seq<char>) -> bool {
    text.len() >= tail.len() && text.skip(text.len() - tail.len()) == tail
}

/// A text ends in what was written last.
pub proof fn lemma_ends_in_last(before: Seq<char>, tail: Seq<char>)
    ensures
        ends_in(before + tail, tail),
{
    let text = before + tail;
    assert(text.skip(text.len() - tail.len()) =~= tail);
}

/// Texts that are joined in two steps follow one another in the order they stand in.
pub proof fn law_joined_texts_follow_one_another(first: Seq<Seq<char>>, second: Seq<Seq<char>>, separator: Seq<char>)
    requires
        first.len() > 0,
        second.len() > 0,
    ensures
        joined(first + second, separator) == joined(first, separator) + separator + joined(second, separator),
        joined(seq![first[0]], separator) == first[0],
    decreases second.len(),
{
    let all = first + second;
    assert(all.last() == second.last());
    if second.len() == 1 {
        assert(all.drop_last() =~= first);
    } else {
        law_joined_texts_follow_one_another(first, second.drop_last(), separator);
        assert(all.drop_last() =~= first + second.drop_last());
        let head = joined(first, separator) + separator;
        let rest = joined(second.drop_last(), separator);
        assert(head + rest + separator + second.last() =~= head + (rest + separator + second.last()));
    }
}

/// What a hexadecimal digit stands for.
pub open spec fn hex_value(c: char) -> int {
    if c <= '9' {
        c as int - 48
    } else {
        c as int - 87
    }
}

/// The hexadecimal text of some bytes stands for those bytes, two digits for each.
pub proof fn law_hex_text_stands_for_the_bytes(bytes: Seq<u8>, i: int)
    requires
        0 <= i < bytes.len(),
    ensures
        hex(bytes).len() == 2 * bytes.len(),
        hex_value(hex(bytes)[2 * i]) * 16 + hex_value(hex(bytes)[2 * i + 1]) == bytes[i],
        '0' <= hex(bytes)[2 * i] <= '9' || 'a' <= hex(bytes)[2 * i] <= 'f',
        '0' <= hex(bytes)[2 * i + 1] <= '9' || 'a' <= hex(bytes)[2 * i + 1] <= 'f',
{
    assert((2 * i) / 2 == i && (2 * i) % 2 == 0);
    assert((2 * i + 1) / 2 == i && (2 * i + 1) % 2 == 1);
}

/// `usize::to_string` (through `Display`): the number in decimal.
#[verifier::external_body]
pub(crate) fn usize_text(n: usize) -> (r: String)
    ensures
        r@ == decimal(n as nat),
{
    n.to_string()
}

/// `str::contains` with a string pattern: whether the pattern occurs in the text.
#[verifier::external_body]
pub(crate) fn text_contains(text: &str, needle: &str) -> (r: bool)
    ensures
        r == contains_text(text@, needle@),
{
    text.contains(needle)
}

/// `str::as_bytes`, kept as a vector.
pub(crate) fn utf8(text: &str) -> (r: Vec<u8>)
    ensures
        r@ == vstd::utf8::encode_utf8(text@),
{
    vstd::slice::slice_to_vec(text.as_bytes())
}

/// One text and the other behind it.
pub(crate) fn concat(a: &str, b: &str) -> (r: String)
    ensures
        r@ == a@ + b@,
{
    let mut text = String::new();
    text.append(a);
    text.append(b);
    assert(text@ =~= a@ + b@);
    text
}

/// The texts joined into one.
pub(crate) fn join_text(parts: &Vec<String>, separator: &str) -> (r: String)
    ensures
        r@ == joined(parts@.map_values(|s: String| s@), separator@),
{
    let ghost views = parts@.map_values(|s: String| s@);
    let mut text = String::new();
    let mut i: usize = 0;
    while i < parts.len()
        invariant
            i <= parts@.len(),
            views == parts@.map_values(|s: String| s@),
            text@ == joined(views.take(i as int), separator@),
        decreases parts@.len() - i,
    {
        proof {
            assert(views.take(i + 1).drop_last() =~= views.take(i as int));
            assert(views.take(i + 1).last() == parts@[i as int]@);
        }
        if i > 0 {
            text.append(separator);
        }
        text.append(parts[i].as_str());
        proof {
            if i == 0 {
                assert(views.take(0) =~= Seq::<Seq<char>>::empty());
                assert(text@ =~= parts@[0]@);
            }
        }
        i = i + 1;
    }
    assert(views.take(parts@.len() as int) =~= views);
    text
}

} // verus!
