//! What the operations on texts keep: numbers are read back from their digits,
//! texts from their parts, and trimming takes off white space alone.

use crate::hooks;
use crate::messages;
use crate::text;
use vstd::prelude::*;

verus! {

// Numbers.

/// The number that decimal digits stand for.
pub open spec fn read_decimal(s: Seq<char>) -> int
    decreases s.len(),
{
    if s.len() == 0 {
        0
    } else {
        10 * read_decimal(s.drop_last()) + (s.last() as int - '0' as int)
    }
}

/// A number is read back from its decimal digits, of which the first is a zero
/// only where the number is.
pub proof fn decimals_are_read_back(value: nat)
    ensures
        read_decimal(text::decimal(value)) == value,
        text::decimal(value).len() > 0,
        forall|i: int|
            0 <= i < text::decimal(value).len() ==> '0' <= #[trigger] text::decimal(value)[i]
                <= '9',
        value > 0 ==> text::decimal(value)[0] != '0',
    decreases value,
{
    let s = text::decimal(value);
    reveal_with_fuel(read_decimal, 2);
    if value < 10 {
        assert(s.drop_last() =~= Seq::<char>::empty());
    } else {
        decimals_are_read_back(value / 10);
        assert(s.drop_last() =~= text::decimal(value / 10));
    }
}

/// The number that hexadecimal digits stand for.
pub open spec fn read_hexadecimal(s: Seq<char>) -> int
    decreases s.len(),
{
    if s.len() == 0 {
        0
    } else {
        16 * read_hexadecimal(s.drop_last()) + hexadecimal_digit(s.last())
    }
}

pub open spec fn hexadecimal_digit(c: char) -> int {
    if c <= '9' {
        c as int - '0' as int
    } else {
        c as int - 'a' as int + 10
    }
}

/// A number is read back from its hexadecimal digits.
pub proof fn hexadecimals_are_read_back(value: nat)
    ensures
        read_hexadecimal(messages::hex_digits(value)) == value,
        messages::hex_digits(value).len() > 0,
        value > 0 ==> messages::hex_digits(value)[0] != '0',
    decreases value,
{
    let s = messages::hex_digits(value);
    reveal_with_fuel(read_hexadecimal, 2);
    if value < 16 {
        assert(s.drop_last() =~= Seq::<char>::empty());
    } else {
        hexadecimals_are_read_back(value / 16);
        assert(s.drop_last() =~= messages::hex_digits(value / 16));
    }
}

pub open spec fn sixteens(n: nat) -> int
    decreases n,
{
    if n == 0 {
        1
    } else {
        16 * sixteens((n - 1) as nat)
    }
}

/// So many low digits give the number back, if it has no more.
pub proof fn low_digits_are_read_back(value: nat, n: nat)
    requires
        value < sixteens(n),
    ensures
        messages::low_hex_digits(value, n).len() == n,
        read_hexadecimal(messages::low_hex_digits(value, n)) == value,
    decreases n,
{
    if n > 0 {
        low_digits_are_read_back(value / 16, (n - 1) as nat);
        assert(messages::low_hex_digits(value, n).drop_last() =~= messages::low_hex_digits(
            value / 16,
            (n - 1) as nat,
        ));
    }
}

/// Each byte is read back from its two hexadecimal digits.
pub proof fn bytes_are_read_back(bytes: Seq<u8>, i: int)
    requires
        0 <= i < bytes.len(),
    ensures
        hooks::hex_text(bytes).len() == 2 * bytes.len(),
        bytes[i] == 16 * hexadecimal_digit(hooks::hex_text(bytes)[2 * i]) + hexadecimal_digit(
            hooks::hex_text(bytes)[2 * i + 1],
        ),
    decreases bytes.len(),
{
    reveal_with_fuel(hooks::hex_text, 2);
    let front = bytes.drop_last();
    if front.len() > 0 {
        bytes_are_read_back(front, 0);
    }
    if i < front.len() {
        bytes_are_read_back(front, i);
    }
}

// Parts and lines.

proof fn lemma_parts(s: Seq<char>, separator: char)
    ensures
        text::parts(s, separator).len() > 0,
    decreases s.len(),
{
    if s.len() > 0 {
        lemma_parts(s.drop_last(), separator);
    }
}

/// The parts of a text, with the separator between each two, are the text; and
/// no part holds the separator.
pub proof fn parts_make_up_the_text(s: Seq<char>, separator: char)
    ensures
        text::joined(text::parts(s, separator), seq![separator]) == s,
        text::parts(s, separator).len() > 0,
        forall|i: int|
            0 <= i < text::parts(s, separator).len() ==> !(#[trigger] text::parts(
                s,
                separator,
            )[i]).contains(separator),
    decreases s.len(),
{
    let one = seq![separator];
    let all = text::parts(s, separator);
    reveal_with_fuel(text::joined, 2);
    if s.len() == 0 {
        assert(text::joined(all, one) =~= s);
    } else {
        let before = text::parts(s.drop_last(), separator);
        parts_make_up_the_text(s.drop_last(), separator);
        if s.last() == separator {
            assert(all.drop_last() =~= before);
            assert(text::joined(all, one) =~= s.drop_last() + one);
            assert(s =~= s.drop_last() + one);
        } else {
            let grown = before.last().push(s.last());
            assert(all.drop_last() =~= before.drop_last());
            assert(all.last() == grown);
            lemma_grown(before.last(), s.last(), separator);
            if before.len() == 1 {
                assert(text::joined(before, one) == before[0]);
                assert(text::joined(all, one) == all[0]);
                assert(s =~= before[0].push(s.last()));
            } else {
                assert(text::joined(all, one) =~= text::joined(before.drop_last(), one) + one
                    + grown);
                assert(text::joined(before, one) == text::joined(before.drop_last(), one) + one
                    + before.last());
                assert(s =~= s.drop_last().push(s.last()));
                assert(text::joined(all, one) =~= s);
            }
            assert forall|i: int| 0 <= i < all.len() implies !(#[trigger] all[i]).contains(
                separator,
            ) by {
                if i < before.len() - 1 {
                    assert(all[i] == before[i]);
                } else {
                    assert(before[before.len() - 1] == before.last());
                }
            }
        }
    }
}

proof fn lemma_grown(s: Seq<char>, c: char, separator: char)
    requires
        !s.contains(separator),
        c != separator,
    ensures
        !s.push(c).contains(separator),
{
    let t = s.push(c);
    if t.contains(separator) {
        let k = choose|k: int| 0 <= k < t.len() && t[k] == separator;
        if k < s.len() {
            assert(s[k] == separator);
        }
    }
}

/// A text without carriage returns is its lines with a line feed between each
/// two, and perhaps one more at its end.
pub proof fn lines_make_up_the_text(s: Seq<char>)
    requires
        !s.contains('\r'),
    ensures
        ({
            let all = text::lines(s);
            let whole = text::joined(all, seq!['\n']);
            s == whole || s == whole + seq!['\n']
        }),
{
    let feed = seq!['\n'];
    let all = text::parts(s, '\n');
    parts_make_up_the_text(s, '\n');
    let ended = all.drop_last().map_values(|line: Seq<char>| text::chomped(line));
    lemma_no_returns(s, '\n');
    assert(ended =~= all.drop_last()) by {
        assert forall|i: int| 0 <= i < ended.len() implies ended[i] == all[i] by {
            let line = all[i];
            if line.len() > 0 {
                assert(line.contains(line.last())) by {
                    assert(line[line.len() - 1] == line.last());
                }
            }
        }
    }
    reveal_with_fuel(text::joined, 2);
    if all.last().len() == 0 {
        assert(text::lines(s) == ended);
        if all.len() == 1 {
            assert(s =~= Seq::<char>::empty());
            assert(text::joined(ended, feed) =~= s);
        } else {
            assert(s =~= text::joined(ended, feed) + feed);
        }
    } else {
        assert(text::lines(s) =~= all);
    }
}

proof fn lemma_no_returns(s: Seq<char>, separator: char)
    requires
        !s.contains('\r'),
    ensures
        forall|i: int|
            0 <= i < text::parts(s, separator).len() ==> !(#[trigger] text::parts(
                s,
                separator,
            )[i]).contains('\r'),
    decreases s.len(),
{
    lemma_parts(s, separator);
    if s.len() > 0 {
        let front = s.drop_last();
        assert(!front.contains('\r')) by {
            if front.contains('\r') {
                let k = choose|k: int| 0 <= k < front.len() && front[k] == '\r';
                assert(s[k] == '\r');
            }
        }
        lemma_no_returns(front, separator);
        lemma_parts(front, separator);
        let before = text::parts(front, separator);
        let all = text::parts(s, separator);
        assert(s.last() != '\r') by {
            assert(s[s.len() - 1] == s.last());
        }
        assert(before[before.len() - 1] == before.last());
        if s.last() != separator {
            lemma_grown(before.last(), s.last(), '\r');
        }
        assert forall|i: int| 0 <= i < all.len() implies !(#[trigger] all[i]).contains('\r') by {
            if i < before.len() - 1 {
                assert(all[i] == before[i]);
            } else if i < before.len() && s.last() == separator {
                assert(all[i] == before[i]);
            }
        }
    }
}

// Blank ends.

/// White space alone.
pub open spec fn blank(s: Seq<char>) -> bool {
    forall|i: int| 0 <= i < s.len() ==> text::is_space(#[trigger] s[i])
}

proof fn lemma_trim_start(s: Seq<char>)
    ensures
        ({
            let kept = text::trim_start(s);
            let cut = s.len() - kept.len();
            &&& 0 <= cut
            &&& kept == s.skip(cut)
            &&& blank(s.take(cut))
            &&& kept.len() > 0 ==> !text::is_space(kept[0])
        }),
    decreases s.len(),
{
    if s.len() > 0 && text::is_space(s[0]) {
        let rest = s.drop_first();
        lemma_trim_start(rest);
        let kept = text::trim_start(s);
        let cut = s.len() - kept.len();
        assert(kept =~= s.skip(cut));
        assert forall|i: int| 0 <= i < cut implies text::is_space(#[trigger] s.take(cut)[i]) by {
            if i > 0 {
                assert(rest.take(cut - 1)[i - 1] == s[i]);
            }
        }
    } else {
        assert(s.skip(0) =~= s);
    }
}

proof fn lemma_trim_end(s: Seq<char>)
    ensures
        ({
            let kept = text::trim_end(s);
            &&& kept.len() <= s.len()
            &&& kept == s.take(kept.len() as int)
            &&& blank(s.skip(kept.len() as int))
            &&& kept.len() > 0 ==> !text::is_space(kept.last())
        }),
    decreases s.len(),
{
    if s.len() > 0 && text::is_space(s.last()) {
        let front = s.drop_last();
        lemma_trim_end(front);
        let kept = text::trim_end(s);
        let n = kept.len() as int;
        assert(kept =~= s.take(n));
        assert forall|i: int| 0 <= i < s.len() - n implies text::is_space(
            #[trigger] s.skip(n)[i],
        ) by {
            if n + i < front.len() {
                assert(front.skip(n)[i] == s[n + i]);
            }
        }
    } else {
        assert(s.take(s.len() as int) =~= s);
    }
}

/// Trimming takes white space off both ends and nothing else, until what is left
/// neither begins nor ends with any.
pub proof fn trimming_takes_off_white_space(s: Seq<char>)
    ensures
        ({
            let kept = text::trimmed(s);
            &&& exists|from: int, to: int|
                0 <= from <= to <= s.len() && kept == #[trigger] s.subrange(from, to) && blank(
                    s.subrange(0, from),
                ) && blank(s.subrange(to, s.len() as int))
            &&& kept.len() > 0 ==> !text::is_space(kept[0]) && !text::is_space(kept.last())
        }),
{
    let middle = text::trim_start(s);
    lemma_trim_start(s);
    lemma_trim_end(middle);
    let kept = text::trimmed(s);
    let from = s.len() - middle.len();
    let to = from + kept.len();
    assert(kept =~= s.subrange(from, to));
    assert(s.subrange(0, from) =~= s.take(from));
    assert(blank(s.subrange(to, s.len() as int))) by {
        assert forall|i: int| 0 <= i < s.len() - to implies text::is_space(
            #[trigger] s.subrange(to, s.len() as int)[i],
        ) by {
            assert(middle.skip(kept.len() as int)[i] == s[to + i]);
        }
    }
}

} // verus!
