//! How texts are taken apart and put together.

use crate::text::{
    after_prefix, decimal, digit, escaped, escaped_char, find_from, has_prefix, has_suffix, hex,
    hex_digit, hex_of, joined_by, lines_of, lines_upto, lower, space, split_on, text_lt, trim_back,
    trim_front, trimmed, without_return,
};
use vstd::prelude::*;

verus! {

/// The number that a row of digits stands for, in a base.
pub open spec fn read_digits(s: Seq<nat>, base: nat) -> nat
    decreases s.len(),
{
    if s.len() == 0 {
        0
    } else {
        read_digits(s.drop_last(), base) * base + s.last()
    }
}

/// The value of a digit in base ten or sixteen, small letters beyond nine.
pub open spec fn digit_value(c: char) -> nat {
    if '0' <= c <= '9' {
        (c as nat - 48) as nat
    } else {
        (c as nat - 87) as nat
    }
}

/// The values of a row of digits.
pub open spec fn digit_values(s: Seq<char>) -> Seq<nat> {
    s.map_values(|c: char| digit_value(c))
}

proof fn lemma_push_value(s: Seq<char>, c: char, base: nat)
    ensures
        read_digits(digit_values(s.push(c)), base) == read_digits(digit_values(s), base) * base
            + digit_value(c),
{
    let v = digit_values(s.push(c));
    assert(v.drop_last() =~= digit_values(s));
    assert(v.last() == digit_value(c));
}

/// A number in decimal reads as that number, is made of digits, and has no zero in front.
pub proof fn a_decimal_reads_as_its_number(n: nat)
    ensures
        read_digits(digit_values(decimal(n)), 10) == n,
        decimal(n).len() > 0,
        forall|i: int| #![trigger decimal(n)[i]] 0 <= i < decimal(n).len() ==> '0' <= decimal(n)[i] <= '9',
        n >= 10 ==> decimal(n)[0] != '0',
        n > 0 ==> decimal(n)[0] != '0',
    decreases n,
{
    if n < 10 {
        assert(decimal(n) =~= Seq::<char>::empty().push(digit(n)));
        lemma_push_value(Seq::empty(), digit(n), 10);
        assert(digit_values(Seq::<char>::empty()) =~= Seq::<nat>::empty());
        assert(digit_value(digit(n)) == n);
    } else {
        a_decimal_reads_as_its_number(n / 10);
        lemma_push_value(decimal(n / 10), digit(n % 10), 10);
        assert(digit_value(digit(n % 10)) == n % 10);
        let s = decimal(n);
        assert(s[0] == decimal(n / 10)[0]);
        assert forall|i: int| #![trigger s[i]] 0 <= i < s.len() implies '0' <= s[i] <= '9' by {
            if i < s.len() - 1 {
                assert(s[i] == decimal(n / 10)[i]);
            }
        }
    }
}

/// A number in hexadecimal reads as that number.
pub proof fn a_hexadecimal_reads_as_its_number(n: nat)
    ensures
        read_digits(digit_values(hex(n)), 16) == n,
        hex(n).len() > 0,
    decreases n,
{
    if n < 16 {
        assert(hex(n) =~= Seq::<char>::empty().push(hex_digit(n)));
        lemma_push_value(Seq::empty(), hex_digit(n), 16);
        assert(digit_values(Seq::<char>::empty()) =~= Seq::<nat>::empty());
        assert(digit_value(hex_digit(n)) == n);
    } else {
        a_hexadecimal_reads_as_its_number(n / 16);
        lemma_push_value(hex(n / 16), hex_digit(n % 16), 16);
        assert(digit_value(hex_digit(n % 16)) == n % 16);
    }
}

/// Sixteen to a power.
pub open spec fn sixteen_to(width: nat) -> nat
    decreases width,
{
    if width == 0 {
        1
    } else {
        16 * sixteen_to((width - 1) as nat)
    }
}

/// A number of fixed width has that width, and reads as the number where it fits.
pub proof fn a_number_of_fixed_width_reads_back(n: nat, width: nat)
    ensures
        hex_of(n, width).len() == width,
        n < sixteen_to(width) ==> read_digits(digit_values(hex_of(n, width)), 16) == n,
    decreases width,
{
    if width > 0 {
        a_number_of_fixed_width_reads_back(n / 16, (width - 1) as nat);
        lemma_push_value(hex_of(n / 16, (width - 1) as nat), hex_digit(n % 16), 16);
        assert(digit_value(hex_digit(n % 16)) == n % 16);
        assert(n < 16 * sixteen_to((width - 1) as nat) ==> n / 16 < sixteen_to((width - 1) as nat));
    } else {
        assert(digit_values(hex_of(n, width)) =~= Seq::<nat>::empty());
    }
}

/// A digest of sixteen digits reads back as the digest.
pub proof fn a_digest_reads_back(n: u64)
    ensures
        hex_of(n as nat, 16).len() == 16,
        read_digits(digit_values(hex_of(n as nat, 16)), 16) == n,
{
    a_number_of_fixed_width_reads_back(n as nat, 16);
    reveal_with_fuel(sixteen_to, 17);
    assert(sixteen_to(16) == 0x1_0000_0000_0000_0000);
}

proof fn lemma_find(s: Seq<char>, c: char, from: int)
    requires
        0 <= from <= s.len(),
    ensures
        ({
            let i = find_from(s, c, from);
            &&& from <= i <= s.len()
            &&& i < s.len() ==> s[i] == c
            &&& forall|k: int| #![trigger s[k]] from <= k < i ==> s[k] != c
        }),
    decreases s.len() - from,
{
    if from < s.len() && s[from] != c {
        lemma_find(s, c, from + 1);
    }
}

/// The pieces between the separators of a text hold none, and put together with them give
/// the text back.
pub proof fn pieces_put_together_give_the_text(s: Seq<char>, sep: char)
    ensures
        joined_by(split_on(s, sep), seq![sep]) == s,
        split_on(s, sep).len() > 0,
        forall|i: int|
            #![trigger split_on(s, sep)[i]]
            0 <= i < split_on(s, sep).len() ==> !split_on(s, sep)[i].contains(sep),
    decreases s.len(),
{
    lemma_find(s, sep, 0);
    let i = find_from(s, sep, 0);
    let all = split_on(s, sep);
    if i >= s.len() {
        assert(all =~= seq![s]);
        assert forall|k: int| #![trigger all[k]] 0 <= k < all.len() implies !all[k].contains(
            sep,
        ) by {
            if s.contains(sep) {
                let j = choose|j: int| 0 <= j < s.len() && s[j] == sep;
                assert(s[j] != sep);
            }
        }
    } else {
        let rest = s.skip(i + 1);
        pieces_put_together_give_the_text(rest, sep);
        let tail = split_on(rest, sep);
        assert(all =~= seq![s.take(i)] + tail);
        lemma_joined_front(s.take(i), tail, seq![sep]);
        assert(s.take(i) + seq![sep] + rest =~= s);
        assert forall|k: int| #![trigger all[k]] 0 <= k < all.len() implies !all[k].contains(
            sep,
        ) by {
            if k == 0 {
                let p = s.take(i);
                if p.contains(sep) {
                    let j = choose|j: int| 0 <= j < p.len() && p[j] == sep;
                    assert(s[j] != sep);
                }
            } else {
                assert(all[k] == tail[k - 1]);
            }
        }
    }
}

proof fn lemma_joined_front(a: Seq<char>, v: Seq<Seq<char>>, sep: Seq<char>)
    requires
        v.len() > 0,
    ensures
        joined_by(seq![a] + v, sep) == a + sep + joined_by(v, sep),
    decreases v.len(),
{
    let all = seq![a] + v;
    if v.len() == 1 {
        assert(all.drop_last() =~= seq![a]);
        assert(joined_by(all.drop_last(), sep) == a);
    } else {
        assert(all.drop_last() =~= seq![a] + v.drop_last());
        lemma_joined_front(a, v.drop_last(), sep);
        assert(joined_by(all, sep) =~= a + sep + joined_by(v, sep));
    }
}

/// A list of texts is put together in order, with the separator between any two.
pub proof fn texts_are_put_together_in_order(v: Seq<Seq<char>>, x: Seq<char>, sep: Seq<char>)
    ensures
        joined_by(Seq::empty(), sep).len() == 0,
        joined_by(seq![x], sep) == x,
        v.len() > 0 ==> joined_by(v.push(x), sep) == joined_by(v, sep) + sep + x,
{
    if v.len() > 0 {
        assert(v.push(x).drop_last() =~= v);
    }
}

/// The first line of a text ends before its line end, without a carriage return, and the
/// other lines are those of the rest.
pub proof fn a_line_ends_at_its_line_end(line: Seq<char>, rest: Seq<char>)
    requires
        !line.contains('\n'),
    ensures
        lines_of(line + seq!['\n'] + rest) == seq![without_return(line)] + lines_of(rest),
        line.len() > 0 ==> lines_of(line) == seq![line],
        lines_of(Seq::empty()).len() == 0,
{
    let s = line + seq!['\n'] + rest;
    lemma_find(s, '\n', 0);
    let i = find_from(s, '\n', 0);
    assert(s[line.len() as int] == '\n');
    if i < line.len() {
        assert(s[i] == line[i]);
        assert(line.contains(line[i]));
    }
    assert(i == line.len());
    assert(s.take(i) =~= line);
    assert(s.skip(i + 1) =~= rest);
    let tail = split_on(rest, '\n');
    let all = split_on(s, '\n');
    assert(all =~= seq![line] + tail);
    pieces_put_together_give_the_text(rest, '\n');
    lemma_lines_shift(line, tail, tail.len() as int);
    lemma_find(line, '\n', 0);
    let j = find_from(line, '\n', 0);
    if j < line.len() {
        assert(line.contains(line[j]));
    }
    assert(split_on(line, '\n') =~= seq![line]);
    assert(lines_upto(seq![line], 0) =~= Seq::<Seq<char>>::empty());
    if line.len() > 0 {
        assert(lines_upto(seq![line], 1) =~= seq![line]);
    }
    let none = Seq::<char>::empty();
    assert(split_on(none, '\n') =~= seq![none]);
    assert(lines_upto(seq![none], 0) =~= Seq::<Seq<char>>::empty());
    assert(lines_upto(seq![none], 1) =~= Seq::<Seq<char>>::empty());
}

proof fn lemma_lines_shift(line: Seq<char>, tail: Seq<Seq<char>>, n: int)
    requires
        0 <= n <= tail.len(),
        tail.len() > 0,
    ensures
        lines_upto(seq![line] + tail, n + 1) == seq![without_return(line)] + lines_upto(tail, n),
    decreases n,
{
    let all = seq![line] + tail;
    if n == 0 {
        assert(lines_upto(all, 0) =~= Seq::<Seq<char>>::empty());
        assert(all[0] == line);
        assert(lines_upto(all, 1) =~= seq![without_return(line)]);
        assert(lines_upto(tail, 0) =~= Seq::<Seq<char>>::empty());
    } else {
        lemma_lines_shift(line, tail, n - 1);
        assert(all[n] == tail[n - 1]);
        assert(lines_upto(all, n + 1) =~= seq![without_return(line)] + lines_upto(tail, n));
    }
}

proof fn lemma_trim_front(s: Seq<char>)
    ensures
        exists|k: int| #![trigger s.skip(k)] 0 <= k <= s.len() && trim_front(s) == s.skip(k) && (forall|i: int|
            #![trigger s[i]]
            0 <= i < k ==> space(s[i])),
        trim_front(s).len() > 0 ==> !space(trim_front(s)[0]),
    decreases s.len(),
{
    if s.len() > 0 && space(s[0]) {
        let rest = s.drop_first();
        lemma_trim_front(rest);
        let k = choose|k: int|
            #![trigger rest.skip(k)]
            0 <= k <= rest.len() && trim_front(rest) == rest.skip(k) && (forall|i: int|
                #![trigger rest[i]]
                0 <= i < k ==> space(rest[i]));
        assert(s.skip(k + 1) =~= rest.skip(k));
        assert forall|i: int| #![trigger s[i]] 0 <= i < k + 1 implies space(s[i]) by {
            if i > 0 {
                assert(s[i] == rest[i - 1]);
            }
        }
    } else {
        assert(s.skip(0) =~= s);
    }
}

proof fn lemma_trim_back(s: Seq<char>)
    ensures
        exists|k: int| #![trigger s.take(k)] 0 <= k <= s.len() && trim_back(s) == s.take(k) && (forall|i: int|
            #![trigger s[i]]
            k <= i < s.len() ==> space(s[i])),
        trim_back(s).len() > 0 ==> !space(trim_back(s).last()),
    decreases s.len(),
{
    if s.len() > 0 && space(s.last()) {
        let rest = s.drop_last();
        lemma_trim_back(rest);
        let k = choose|k: int|
            #![trigger rest.take(k)]
            0 <= k <= rest.len() && trim_back(rest) == rest.take(k) && (forall|i: int|
                #![trigger rest[i]]
                k <= i < rest.len() ==> space(rest[i]));
        assert(s.take(k) =~= rest.take(k));
        assert forall|i: int| #![trigger s[i]] k <= i < s.len() implies space(s[i]) by {
            if i < rest.len() {
                assert(s[i] == rest[i]);
            }
        }
    } else {
        assert(s.take(s.len() as int) =~= s);
    }
}

/// A trimmed text is the text without the spaces at its ends: what is left begins and ends
/// with something else, and what was cut off are spaces.
pub proof fn a_trimmed_text_has_no_spaces_at_its_ends(s: Seq<char>)
    ensures
        trimmed(s).len() > 0 ==> !space(trimmed(s)[0]) && !space(trimmed(s).last()),
        exists|a: int, b: int|
            #![trigger s.subrange(a, b)]
            0 <= a <= b <= s.len() && trimmed(s) == s.subrange(a, b) && (forall|i: int|
                #![trigger s[i]]
                0 <= i < a || b <= i < s.len() ==> space(s[i])),
        space(' ') && space('\t') && space('\n') && space('\r'),
{
    let f = trim_front(s);
    lemma_trim_front(s);
    lemma_trim_back(f);
    let a = choose|k: int|
        #![trigger s.skip(k)]
        0 <= k <= s.len() && f == s.skip(k) && (forall|i: int|
            #![trigger s[i]]
            0 <= i < k ==> space(s[i]));
    let k = choose|k: int|
        #![trigger f.take(k)]
        0 <= k <= f.len() && trim_back(f) == f.take(k) && (forall|i: int|
            #![trigger f[i]]
            k <= i < f.len() ==> space(f[i]));
    assert(f.take(k) =~= s.subrange(a, a + k));
    assert forall|i: int| #![trigger s[i]] 0 <= i < a || a + k <= i < s.len() implies space(
        s[i],
    ) by {
        if i >= a + k {
            assert(s[i] == f[i - a]);
        }
    }
    if trimmed(s).len() > 0 {
        assert(trimmed(s)[0] == f[0]);
    }
}

/// A prefix is taken off where it is there, and a suffix is where a text ends with it.
pub proof fn a_prefix_is_taken_off(p: Seq<char>, s: Seq<char>)
    ensures
        after_prefix(p + s, p) == Some(s),
        after_prefix(s, p) matches Some(t) ==> s == p + t,
        has_suffix(s + p, p),
        has_prefix(p + s, p),
{
    assert((p + s).take(p.len() as int) =~= p);
    assert((p + s).skip(p.len() as int) =~= s);
    assert((s + p).skip(s.len() as int) =~= p);
    if let Some(t) = after_prefix(s, p) {
        assert(s =~= s.take(p.len() as int) + t);
    }
}

/// Small letters stand for the capitals of the alphabet, and everything else for itself.
pub proof fn capitals_become_small_letters(s: Seq<char>, i: int)
    requires
        0 <= i < s.len(),
    ensures
        lower(s).len() == s.len(),
        'A' <= s[i] <= 'Z' ==> lower(s)[i] as int == s[i] as int + 32,
        !('A' <= s[i] <= 'Z') ==> lower(s)[i] == s[i],
{
}

/// Texts are ordered by the first character in which they differ, and before those that they
/// begin.
pub proof fn texts_are_ordered_by_their_first_difference(
    p: Seq<char>,
    a: char,
    b: char,
    x: Seq<char>,
    y: Seq<char>,
)
    ensures
        a != b ==> (text_lt(p + seq![a] + x, p + seq![b] + y) <==> (a as int) < (b as int)),
        text_lt(p, p + seq![a] + x),
        !text_lt(p + seq![a] + x, p),
    decreases p.len(),
{
    let l = p + seq![a] + x;
    let r = p + seq![b] + y;
    if p.len() > 0 {
        let q = p.drop_first();
        texts_are_ordered_by_their_first_difference(q, a, b, x, y);
        assert(l.drop_first() =~= q + seq![a] + x);
        assert(r.drop_first() =~= q + seq![b] + y);
        assert(l[0] == p[0] && r[0] == p[0]);
    } else {
        assert(l[0] == a && r[0] == b);
    }
}

/// A text is escaped character by character.
pub proof fn a_text_is_escaped_character_by_character(a: Seq<char>, b: Seq<char>, c: char)
    ensures
        escaped(a + b) == escaped(a) + escaped(b),
        escaped(seq![c]) == escaped_char(c),
        escaped_char('\n') == seq!['\\', 'n'],
        escaped_char('"') == seq!['\\', '"'],
        escaped_char('\\') == seq!['\\', '\\'],
        'a' <= c <= 'z' || 'A' <= c <= 'Z' || '0' <= c <= '9' || c == ' ' ==> escaped_char(c)
            == seq![c],
    decreases b.len(),
{
    assert(seq![c].drop_last() =~= Seq::<char>::empty());
    assert(escaped(seq![c].drop_last()) =~= Seq::<char>::empty());
    assert(seq![c].last() == c);
    assert(escaped(seq![c]) =~= escaped_char(c));
    if b.len() == 0 {
        assert(a + b =~= a);
        assert(escaped(a) + escaped(b) =~= escaped(a));
    } else {
        a_text_is_escaped_character_by_character(a, b.drop_last(), c);
        assert((a + b).drop_last() =~= a + b.drop_last());
        assert(escaped(a + b) =~= escaped(a) + escaped(b));
    }
}

} // verus!
