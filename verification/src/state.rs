//! Reading the cutover timestamp from the environment file the deploy writes.
use vstd::prelude::*;
use crate::text::{chars_of, decimal, digit_char, padded2, has_prefix, is_digit, starts_with_chars, trim, trimmed_range};
use crate::watcher::split_on;

verus! {

/// The value of a run of decimal digits.
pub open spec fn digits_value(s: Seq<char>) -> nat
    decreases s.len(),
{
    if s.len() == 0 {
        0
    } else {
        digits_value(s.drop_last()) * 10 + ((s.last() as int - 48) as nat)
    }
}

/// Whether every character is a decimal digit.
pub open spec fn all_digits(s: Seq<char>) -> bool {
    forall|i: int| 0 <= i < s.len() ==> is_digit(#[trigger] s[i])
}

/// `str::parse::<u64>`: an optional `+`, then one or more decimal digits whose
/// value fits in `u64`.
pub open spec fn u64_of(s: Seq<char>) -> Option<u64> {
    let d = if s.len() > 0 && s[0] == '+' { s.drop_first() } else { s };
    if d.len() == 0 || !all_digits(d) || digits_value(d) > u64::MAX {
        None
    } else {
        Some(digits_value(d) as u64)
    }
}

proof fn lemma_digits_value_grows(s: Seq<char>, i: int)
    requires
        0 <= i <= s.len(),
        all_digits(s),
    ensures
        digits_value(s.take(i)) <= digits_value(s),
    decreases s.len() - i,
{
    if i < s.len() {
        lemma_digits_value_grows(s, i + 1);
        assert(s.take(i + 1).drop_last() =~= s.take(i));
    } else {
        assert(s.take(i) =~= s);
    }
}

/// Parses a decimal `u64` as `str::parse::<u64>` does.
pub fn parse_u64(cs: &[char]) -> (r: Option<u64>)
    ensures
        r == u64_of(cs@),
{
    let start: usize = if cs.len() > 0 && cs[0] == '+' { 1 } else { 0 };
    let ghost d = if cs@.len() > 0 && cs@[0] == '+' { cs@.drop_first() } else { cs@ };
    assert(d =~= cs@.subrange(start as int, cs@.len() as int));
    if start == cs.len() {
        return None;
    }
    let mut acc: u64 = 0;
    let mut i: usize = start;
    assert(d.take(0) =~= Seq::<char>::empty());
    while i < cs.len()
        invariant
            start <= i <= cs.len(),
            d == cs@.subrange(start as int, cs@.len() as int),
            d == (if cs@.len() > 0 && cs@[0] == '+' { cs@.drop_first() } else { cs@ }),
            acc == digits_value(d.take(i - start)),
            all_digits(d.take(i - start)),
        decreases cs.len() - i,
    {
        let c = cs[i];
        assert(d[i - start] == c);
        if !('0' <= c && c <= '9') {
            assert(!is_digit(d[i - start]));
            assert(!all_digits(d));
            assert(u64_of(cs@) is None);
            return None;
        }
        let digit = (c as u32 - 48) as u64;
        assert(d.take(i - start + 1).drop_last() =~= d.take(i - start));
        assert(d.take(i - start + 1).last() == c);
        match acc.checked_mul(10) {
            Some(t) => match t.checked_add(digit) {
                Some(v) => {
                    acc = v;
                },
                None => {
                    proof {
                        if all_digits(d) {
                            lemma_digits_value_grows(d, i - start + 1);
                        }
                    }
                    return None;
                },
            },
            None => {
                proof {
                    if all_digits(d) {
                        lemma_digits_value_grows(d, i - start + 1);
                    }
                }
                return None;
            },
        }
        i += 1;
    }
    assert(d.take(i - start) =~= d);
    Some(acc)
}

proof fn lemma_decimal_digits(n: nat)
    ensures
        decimal(n).len() > 0,
        all_digits(decimal(n)),
        digits_value(decimal(n)) == n,
    decreases n,
{
    assert(digit_char((n % 10) as int) as int == 48 + n % 10);
    if n < 10 {
        let d = decimal(n);
        assert(d.drop_last() =~= Seq::<char>::empty());
        assert(digits_value(d.drop_last()) == 0);
    }
    if n >= 10 {
        lemma_decimal_digits(n / 10);
        let d = decimal(n);
        assert(d.drop_last() =~= decimal(n / 10));
        assert(d.last() == digit_char((n % 10) as int));
        assert forall|i: int| 0 <= i < d.len() implies is_digit(#[trigger] d[i]) by {
            if i < d.len() - 1 {
                assert(d[i] == decimal(n / 10)[i]);
            }
        }
    }
}

/// A two-digit-padded number is all digits, reads back as the number, and
/// below 100 is exactly two digits long.
pub(crate) proof fn lemma_padded2_digits(k: nat)
    ensures
        padded2(k).len() >= 2,
        all_digits(padded2(k)),
        digits_value(padded2(k)) == k,
        k < 100 ==> padded2(k).len() == 2,
{
    lemma_decimal_digits(k);
    if k < 10 {
        let p = padded2(k);
        assert(digit_char(k as int) as int == 48 + k);
        assert(p.drop_last() =~= seq!['0']);
        let z = seq!['0'];
        assert(z.drop_last() =~= Seq::<char>::empty());
        assert(digits_value(z.drop_last()) == 0);
        assert(z.last() as int == 48);
        assert(digits_value(z) == 0);
    } else {
        lemma_decimal_digits(k / 10);
        assert(decimal(k).drop_last() =~= decimal(k / 10));
        if k < 100 {
            assert(decimal(k / 10).len() == 1);
        }
    }
}

/// Reading back what the decimal formatting writes gives the number again:
/// `u64_of(decimal(n)) == Some(n)`.
pub proof fn lemma_decimal_round_trip(n: u64)
    ensures
        u64_of(decimal(n as nat)) == Some(n),
{
    lemma_decimal_digits(n as nat);
    let d = decimal(n as nat);
    assert(is_digit(d[0]));
}

/// The key under which the deploy writes the cutover timestamp.
pub open spec fn cutover_key() -> Seq<char> {
    "XNET_CUTOVER_TIMESTAMP="@
}

/// The index of the first piece with the cutover key, or -1.
pub open spec fn first_keyed(pieces: Seq<Seq<char>>) -> int
    decreases pieces.len(),
{
    if pieces.len() == 0 {
        -1
    } else if has_prefix(pieces[0], cutover_key()) {
        0
    } else if first_keyed(pieces.drop_first()) < 0 {
        -1
    } else {
        first_keyed(pieces.drop_first()) + 1
    }
}

/// The cutover timestamp an environment file gives: on the first line that
/// starts with `XNET_CUTOVER_TIMESTAMP=`, the rest of the line trimmed and read
/// as a `u64` (a line's trailing `\r` falls to the trim); none when no line
/// starts so or that value does not parse.
pub open spec fn cutover_in_env(content: Seq<char>) -> Option<u64> {
    let lines = split_on(content, '\n');
    let k = first_keyed(lines);
    if k < 0 {
        None
    } else {
        u64_of(trim(lines[k].skip(cutover_key().len() as int)))
    }
}

fn value_after_key(cs: &[char], start: usize, end: usize, key_len: usize) -> (r: Option<u64>)
    requires
        start + key_len <= end <= cs.len(),
    ensures
        r == u64_of(trim(cs@.subrange(start as int, end as int).skip(key_len as int))),
{
    let v = trimmed_range(cs, start + key_len, end);
    let vc = chars_of(v.as_str());
    assert(cs@.subrange(start as int, end as int).skip(key_len as int) =~= cs@.subrange(start + key_len, end as int));
    parse_u64(&vc)
}

/// The cutover timestamp written in an environment file's text.
pub fn cutover_from_env(content: &str) -> (r: Option<u64>)
    ensures
        r == cutover_in_env(content@),
{
    let cs = chars_of(content);
    let key = chars_of("XNET_CUTOVER_TIMESTAMP=");
    proof { reveal_strlit("XNET_CUTOVER_TIMESTAMP="); }
    let mut start: usize = 0;
    let mut i: usize = 0;
    proof {
        assert(cs@.take(0) =~= Seq::<char>::empty());
        assert(cs@.subrange(0, 0) =~= Seq::<char>::empty());
        assert(split_on(cs@.take(0), '\n').drop_last() =~= Seq::<Seq<char>>::empty());
    }
    while i < cs.len()
        invariant
            start <= i <= cs.len(),
            split_on(cs@.take(i as int), '\n').last() == cs@.subrange(start as int, i as int),
            split_on(cs@.take(i as int), '\n').len() >= 1,
            first_keyed(split_on(cs@.take(i as int), '\n').drop_last()) == -1,
            key@ == cutover_key(),
            cs@ == content@,
        decreases cs.len() - i,
    {
        let ghost cur = split_on(cs@.take(i as int), '\n');
        proof {
            assert(cs@.take(i + 1).drop_last() =~= cs@.take(i as int));
            assert(cs@.take(i + 1).last() == cs@[i as int]);
            assert(cur =~= cur.drop_last().push(cur.last()));
            lemma_first_keyed_push(cur.drop_last(), cur.last());
        }
        if cs[i] == '\n' {
            if starts_with_chars(&cs[start..i], &key) {
                proof {
                    lemma_split_extends(cs@, i as int);
                    lemma_first_keyed_prefix(cur, split_on(cs@, '\n'));
                }
                return value_after_key(&cs, start, i, key.len());
            }
            proof {
                assert(split_on(cs@.take(i + 1), '\n').drop_last() =~= cur);
                assert(cs@.subrange(i + 1, i + 1) =~= Seq::<char>::empty());
            }
            start = i + 1;
        } else {
            proof {
                let ns = split_on(cs@.take(i + 1), '\n');
                assert(ns.drop_last() =~= cur.drop_last());
                assert(ns.last() =~= cs@.subrange(start as int, i + 1));
            }
        }
        i += 1;
    }
    let ghost all = split_on(cs@, '\n');
    proof {
        assert(cs@.take(i as int) =~= cs@);
        assert(all =~= all.drop_last().push(all.last()));
        lemma_first_keyed_push(all.drop_last(), all.last());
    }
    if starts_with_chars(&cs[start..cs.len()], &key) {
        value_after_key(&cs, start, cs.len(), key.len())
    } else {
        None
    }
}

proof fn lemma_first_keyed_push(pieces: Seq<Seq<char>>, p: Seq<char>)
    requires
        first_keyed(pieces) == -1,
    ensures
        first_keyed(pieces.push(p)) == if has_prefix(p, cutover_key()) { pieces.len() as int } else { -1 },
    decreases pieces.len(),
{
    if pieces.len() > 0 {
        assert(pieces.push(p)[0] == pieces[0]);
        assert(!has_prefix(pieces[0], cutover_key()));
        assert(first_keyed(pieces.drop_first()) == -1);
        assert(pieces.push(p).drop_first() =~= pieces.drop_first().push(p));
        lemma_first_keyed_push(pieces.drop_first(), p);
        let q = pieces.push(p);
        assert(!has_prefix(q[0], cutover_key()));
        assert(first_keyed(q) == if first_keyed(q.drop_first()) < 0 { -1 } else { first_keyed(q.drop_first()) + 1 });
    } else {
        assert(pieces.push(p) =~= seq![p]);
        assert(seq![p].drop_first() =~= Seq::<Seq<char>>::empty());
        assert(first_keyed(Seq::<Seq<char>>::empty()) == -1);
        assert(seq![p][0] == p);
    }
}

proof fn lemma_first_keyed_prefix(a: Seq<Seq<char>>, b: Seq<Seq<char>>)
    requires
        first_keyed(a) >= 0,
        a.len() <= b.len(),
        forall|j: int| 0 <= j < a.len() ==> #[trigger] b[j] == a[j],
    ensures
        first_keyed(b) == first_keyed(a),
    decreases a.len(),
{
    if !has_prefix(a[0], cutover_key()) {
        assert forall|j: int| 0 <= j < a.drop_first().len() implies #[trigger] b.drop_first()[j] == a.drop_first()[j] by {
            assert(b[j + 1] == a[j + 1]);
        }
        lemma_first_keyed_prefix(a.drop_first(), b.drop_first());
    }
}

/// Splitting more text only appends pieces: the pieces of a prefix that ends
/// before a separator stay the leading pieces.
proof fn lemma_split_extends(s: Seq<char>, i: int)
    requires
        0 <= i < s.len(),
        s[i] == '\n',
    ensures
        forall|j: int|
            0 <= j < split_on(s.take(i), '\n').len() ==> #[trigger] split_on(s, '\n')[j] == split_on(
                s.take(i),
                '\n',
            )[j],
        split_on(s, '\n').len() > split_on(s.take(i), '\n').len(),
    decreases s.len() - i,
{
    crate::watcher::lemma_split_nonempty(s.take(i), '\n');
    if i == s.len() - 1 {
        assert(s.drop_last() =~= s.take(i));
    } else {
        lemma_split_extends(s.drop_last(), i);
        assert(s.drop_last().take(i) =~= s.take(i));
        let p = split_on(s.drop_last(), '\n');
        crate::watcher::lemma_split_nonempty(s.drop_last(), '\n');
        assert forall|j: int| 0 <= j < split_on(s.take(i), '\n').len() implies #[trigger] split_on(s, '\n')[j] == split_on(
            s.take(i), '\n')[j] by {
            assert(p[j] == split_on(s.take(i), '\n')[j]);
        }
    }
}

} // verus!
