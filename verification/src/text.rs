//! Primitives of the structured-text payload encoding: decimal numbers,
//! quoted strings with escapes, and fixed literals, each with an encoder, a
//! deterministic scanner, and the lemmas that tie the two together.
//!
//! Strings hold raw bytes.  A quoted string is `"` + the bytes with `"` and
//! `\` each preceded by a backslash + `"`.  A number is its shortest decimal
//! form.  Scanning is exact: it succeeds precisely on the canonical spelling.

use vstd::prelude::*;

verus! {

/// ASCII double quote.
pub const QUOTE: u8 = 34;

/// ASCII backslash.
pub const BACKSLASH: u8 = 92;

/// ASCII decimal digit.
pub open spec fn is_digit(b: u8) -> bool {
    48 <= b <= 57
}

/// How one byte appears inside a quoted string.
pub open spec fn spec_esc_byte(b: u8) -> Seq<u8> {
    if b == QUOTE || b == BACKSLASH {
        seq![BACKSLASH, b]
    } else {
        seq![b]
    }
}

/// The body of a quoted string: each byte escaped as needed.
pub open spec fn spec_escape(s: Seq<u8>) -> Seq<u8>
    decreases s.len(),
{
    if s.len() == 0 {
        Seq::empty()
    } else {
        spec_esc_byte(s.first()) + spec_escape(s.drop_first())
    }
}

/// The whole quoted-string token.
pub open spec fn spec_quoted(s: Seq<u8>) -> Seq<u8> {
    seq![QUOTE] + spec_escape(s) + seq![QUOTE]
}

/// Escaping one more byte appends its escape.
pub proof fn lemma_escape_push(s: Seq<u8>, b: u8)
    ensures
        spec_escape(s.push(b)) == spec_escape(s) + spec_esc_byte(b),
    decreases s.len(),
{
    reveal_with_fuel(spec_escape, 3);
    if s.len() == 0 {
        assert(s.push(b).drop_first() =~= Seq::<u8>::empty());
        assert(spec_escape(s.push(b)) == spec_esc_byte(b) + spec_escape(Seq::<u8>::empty()));
        assert(spec_escape(s.push(b)) =~= spec_escape(s) + spec_esc_byte(b));
    } else {
        assert(s.push(b).drop_first() =~= s.drop_first().push(b));
        lemma_escape_push(s.drop_first(), b);
        assert(s.push(b).first() == s.first());
        assert(spec_escape(s.push(b)) == spec_esc_byte(s.first()) + spec_escape(
            s.drop_first().push(b),
        ));
        assert(spec_escape(s.push(b)) =~= spec_escape(s) + spec_esc_byte(b));
    }
}

/// Append the escaped form of `s` to `out`.
pub fn push_escaped(out: &mut Vec<u8>, s: &Vec<u8>)
    ensures
        final(out)@ == old(out)@ + spec_escape(s@),
{
    let n = s.len();
    for i in 0..n
        invariant
            n == s@.len(),
            out@ == old(out)@ + spec_escape(s@.take(i as int)),
    {
        proof {
            assert(s@.take(i + 1) =~= s@.take(i as int).push(s@[i as int]));
            lemma_escape_push(s@.take(i as int), s@[i as int]);
        }
        let c = s[i];
        if c == QUOTE || c == BACKSLASH {
            out.push(BACKSLASH);
        }
        out.push(c);
        proof {
            assert(out@ =~= old(out)@ + spec_escape(s@.take(i + 1)));
        }
    }
    proof {
        assert(s@.take(n as int) =~= s@);
    }
}

/// Append a whole quoted-string token to `out`.
pub fn push_quoted(out: &mut Vec<u8>, s: &Vec<u8>)
    ensures
        final(out)@ == old(out)@ + spec_quoted(s@),
{
    out.push(QUOTE);
    push_escaped(out, s);
    out.push(QUOTE);
    proof {
        assert(out@ =~= old(out)@ + spec_quoted(s@));
    }
}

/// Shortest decimal spelling of a number.
pub open spec fn spec_dec_digits(n: nat) -> Seq<u8>
    decreases n,
{
    if n < 10 {
        seq![(48 + n) as u8]
    } else {
        spec_dec_digits(n / 10).push((48 + n % 10) as u8)
    }
}

/// Append the decimal spelling of `n` to `out`.
pub fn push_dec_u64(out: &mut Vec<u8>, n: u64)
    ensures
        final(out)@ == old(out)@ + spec_dec_digits(n as nat),
    decreases n,
{
    if n < 10 {
        out.push(48 + n as u8);
        proof {
            assert(out@ =~= old(out)@ + spec_dec_digits(n as nat));
        }
    } else {
        push_dec_u64(out, n / 10);
        out.push(48 + (n % 10) as u8);
        proof {
            assert(out@ =~= old(out)@ + spec_dec_digits(n as nat));
        }
    }
}

/// Append all of `bytes` to `out`.
pub fn push_bytes(out: &mut Vec<u8>, bytes: &Vec<u8>)
    ensures
        final(out)@ == old(out)@ + bytes@,
{
    let n = bytes.len();
    for i in 0..n
        invariant
            n == bytes@.len(),
            out@ == old(out)@ + bytes@.take(i as int),
    {
        out.push(bytes[i]);
        proof {
            assert(old(out)@ + bytes@.take(i + 1) =~= (old(out)@ + bytes@.take(i as int)).push(
                bytes@[i as int],
            ));
        }
    }
    proof {
        assert(bytes@.take(n as int) =~= bytes@);
    }
}

/// Every byte of the decimal spelling is a digit, and there is at least one.
pub proof fn lemma_dec_digits_are_digits(n: nat)
    ensures
        spec_dec_digits(n).len() >= 1,
        forall|i: int| 0 <= i < spec_dec_digits(n).len() ==> is_digit(#[trigger] spec_dec_digits(n)[i]),
    decreases n,
{
    if n >= 10 {
        lemma_dec_digits_are_digits(n / 10);
    }
}

/// A positive number's spelling does not start with a zero.
pub proof fn lemma_dec_digits_leading(n: nat)
    requires
        n > 0,
    ensures
        spec_dec_digits(n)[0] != 48,
    decreases n,
{
    if n >= 10 {
        lemma_dec_digits_leading(n / 10);
    }
}

/// The number a digit string appends to an accumulator read left to right.
pub open spec fn spec_acc_value(acc: int, d: Seq<u8>) -> int
    decreases d.len(),
{
    if d.len() == 0 {
        acc
    } else {
        spec_acc_value(acc, d.drop_last()) * 10 + (d.last() - 48)
    }
}

/// The number a digit string spells.
pub open spec fn spec_digits_value(d: Seq<u8>) -> int {
    spec_acc_value(0, d)
}

/// Reading the first digit into the accumulator and going on is the same as
/// reading the whole string.
pub proof fn lemma_acc_value_cons(acc: int, d: Seq<u8>)
    requires
        d.len() >= 1,
    ensures
        spec_acc_value(acc, d) == spec_acc_value(acc * 10 + (d[0] - 48), d.drop_first()),
    decreases d.len(),
{
    reveal_with_fuel(spec_acc_value, 3);
    if d.len() == 1 {
        assert(d.drop_last() =~= Seq::<u8>::empty());
        assert(d.drop_first() =~= Seq::<u8>::empty());
        assert(d.last() == d[0]);
    } else {
        lemma_acc_value_cons(acc, d.drop_last());
        assert(d.drop_last()[0] == d[0]);
        assert(d.drop_last().drop_first() =~= d.drop_first().drop_last());
        assert(d.drop_first().last() == d.last());
    }
}

/// Appending digits never shrinks the value of a nonnegative accumulator.
pub proof fn lemma_acc_value_grows(acc: int, d: Seq<u8>)
    requires
        acc >= 0,
        forall|i: int| 0 <= i < d.len() ==> is_digit(#[trigger] d[i]),
    ensures
        spec_acc_value(acc, d) >= acc,
    decreases d.len(),
{
    if d.len() > 0 {
        lemma_acc_value_grows(acc, d.drop_last());
    }
}

/// The decimal spelling of a number spells that number.
pub proof fn lemma_dec_digits_value(n: nat)
    ensures
        spec_digits_value(spec_dec_digits(n)) == n,
    decreases n,
{
    reveal_with_fuel(spec_acc_value, 3);
    if n < 10 {
        assert(spec_dec_digits(n) =~= seq![(48 + n) as u8]);
        assert(spec_dec_digits(n).drop_last() =~= Seq::<u8>::empty());
    } else {
        lemma_dec_digits_value(n / 10);
        assert(spec_dec_digits(n).drop_last() =~= spec_dec_digits(n / 10));
        assert(spec_dec_digits(n).last() == (48 + n % 10) as u8);
        vstd::arithmetic::div_mod::lemma_fundamental_div_mod(n as int, 10);
    }
}

/// A nonempty digit string with a nonzero leading digit spells a positive
/// number.
pub proof fn lemma_digits_value_pos(d: Seq<u8>)
    requires
        d.len() >= 1,
        forall|i: int| 0 <= i < d.len() ==> is_digit(#[trigger] d[i]),
        d[0] != 48,
    ensures
        spec_digits_value(d) >= 1,
    decreases d.len(),
{
    reveal_with_fuel(spec_acc_value, 3);
    assert(is_digit(d[0]));
    assert(is_digit(d.last()));
    if d.len() == 1 {
        assert(d.drop_last() =~= Seq::<u8>::empty());
        assert(d.last() == d[0]);
    } else {
        assert(d.drop_last()[0] == d[0]);
        lemma_digits_value_pos(d.drop_last());
    }
}

/// A canonical digit string is the decimal spelling of the number it spells:
/// nonempty, digits only, and no leading zero unless it is just "0".
pub proof fn lemma_digits_canonical(d: Seq<u8>)
    requires
        d.len() >= 1,
        forall|i: int| 0 <= i < d.len() ==> is_digit(#[trigger] d[i]),
        d[0] != 48 || d.len() == 1,
    ensures
        spec_digits_value(d) >= 0,
        d == spec_dec_digits(spec_digits_value(d) as nat),
    decreases d.len(),
{
    reveal_with_fuel(spec_acc_value, 3);
    reveal_with_fuel(spec_dec_digits, 3);
    assert(is_digit(d[0]));
    assert(is_digit(d.last()));
    if d.len() == 1 {
        assert(d.drop_last() =~= Seq::<u8>::empty());
        assert(d.last() == d[0]);
        assert(spec_digits_value(d) == d[0] - 48);
        assert(d =~= spec_dec_digits(spec_digits_value(d) as nat));
    } else {
        let dl = d.drop_last();
        assert(dl[0] == d[0]);
        lemma_digits_value_pos(dl);
        lemma_digits_canonical(dl);
        let vp = spec_digits_value(dl);
        let v = spec_digits_value(d);
        assert(v == vp * 10 + (d.last() - 48));
        vstd::arithmetic::div_mod::lemma_fundamental_div_mod_converse(v, 10, vp, d.last() - 48);
        assert(v >= 10);
        assert(spec_dec_digits(v as nat) == spec_dec_digits((v as nat) / 10).push(
            (48 + (v as nat) % 10) as u8,
        ));
        assert((v as nat) / 10 == vp as nat && (v as nat) % 10 == (d.last() - 48) as nat);
        assert(d =~= spec_dec_digits(v as nat));
    }
}

/// Deterministic scan of a string body up to the closing quote: raw bytes,
/// escaped quotes and backslashes, nothing else.
pub open spec fn spec_scan_string(b: Seq<u8>, p: int, acc: Seq<u8>) -> Option<(Seq<u8>, int)>
    decreases b.len() - p,
{
    if p < 0 || p >= b.len() {
        None
    } else if b[p] == QUOTE {
        Some((acc, p + 1))
    } else if b[p] == BACKSLASH {
        if p + 1 < b.len() && (b[p + 1] == QUOTE || b[p + 1] == BACKSLASH) {
            spec_scan_string(b, p + 2, acc.push(b[p + 1]))
        } else {
            None
        }
    } else {
        spec_scan_string(b, p + 1, acc.push(b[p]))
    }
}

/// Scan of a whole quoted-string token.
pub open spec fn spec_parse_string_at(b: Seq<u8>, p: int) -> Option<(Seq<u8>, int)> {
    if 0 <= p < b.len() && b[p] == QUOTE {
        spec_scan_string(b, p + 1, Seq::empty())
    } else {
        None
    }
}

/// What a successful body scan consumed: exactly the escape of what it added
/// to the accumulator, then the closing quote.
pub proof fn lemma_scan_string_sound(b: Seq<u8>, p: int, acc: Seq<u8>)
    requires
        spec_scan_string(b, p, acc) is Some,
    ensures
        ({
            let (s, q) = spec_scan_string(b, p, acc)->Some_0;
            &&& 0 <= p < q <= b.len()
            &&& acc.len() <= s.len()
            &&& s.take(acc.len() as int) == acc
            &&& b.subrange(p, q) == spec_escape(s.skip(acc.len() as int)) + seq![QUOTE]
        }),
    decreases b.len() - p,
{
    reveal_with_fuel(spec_escape, 3);
    let (s, q) = spec_scan_string(b, p, acc)->Some_0;
    if b[p] == QUOTE {
        assert(s.take(acc.len() as int) =~= acc);
        assert(s.skip(acc.len() as int) =~= Seq::<u8>::empty());
        assert(b.subrange(p, q) =~= seq![QUOTE]);
        assert(b.subrange(p, q) =~= spec_escape(s.skip(acc.len() as int)) + seq![QUOTE]);
    } else if b[p] == BACKSLASH {
        let c = b[p + 1];
        let acc2 = acc.push(c);
        lemma_scan_string_sound(b, p + 2, acc2);
        assert forall|i: int| 0 <= i <= acc.len() implies s[i] == acc2[i] by {
            assert(s.take(acc2.len() as int)[i] == s[i]);
        }
        assert(s.take(acc.len() as int) =~= acc);
        let t = s.skip(acc2.len() as int);
        let t0 = s.skip(acc.len() as int);
        assert(t0 =~= seq![c] + t);
        assert(t0.first() == c && t0.drop_first() =~= t);
        assert(spec_escape(t0) == spec_esc_byte(c) + spec_escape(t));
        assert(spec_esc_byte(c) =~= seq![BACKSLASH, c]);
        assert(b.subrange(p, q) =~= seq![b[p], c] + b.subrange(p + 2, q));
        assert(b.subrange(p, q) =~= spec_escape(t0) + seq![QUOTE]);
    } else {
        let c = b[p];
        let acc2 = acc.push(c);
        lemma_scan_string_sound(b, p + 1, acc2);
        assert forall|i: int| 0 <= i <= acc.len() implies s[i] == acc2[i] by {
            assert(s.take(acc2.len() as int)[i] == s[i]);
        }
        assert(s.take(acc.len() as int) =~= acc);
        let t = s.skip(acc2.len() as int);
        let t0 = s.skip(acc.len() as int);
        assert(t0 =~= seq![c] + t);
        assert(t0.first() == c && t0.drop_first() =~= t);
        assert(spec_escape(t0) == spec_esc_byte(c) + spec_escape(t));
        assert(spec_esc_byte(c) =~= seq![c]);
        assert(b.subrange(p, q) =~= seq![c] + b.subrange(p + 1, q));
        assert(b.subrange(p, q) =~= spec_escape(t0) + seq![QUOTE]);
    }
}

/// A body scan over the escape of `t` and a closing quote finds `t`.
pub proof fn lemma_scan_string_complete(b: Seq<u8>, p: int, acc: Seq<u8>, t: Seq<u8>)
    requires
        0 <= p,
        p + spec_escape(t).len() + 1 <= b.len(),
        b.subrange(p, p + spec_escape(t).len() + 1) == spec_escape(t) + seq![QUOTE],
    ensures
        spec_scan_string(b, p, acc) == Some((acc + t, p + spec_escape(t).len() + 1)),
    decreases t.len(),
{
    reveal_with_fuel(spec_escape, 3);
    let e = spec_escape(t);
    let sub = b.subrange(p, p + e.len() + 1);
    assert(sub == e + seq![QUOTE]);
    if t.len() == 0 {
        assert(sub[0] == b[p] && (e + seq![QUOTE])[0] == QUOTE);
        assert(acc + t =~= acc);
    } else {
        let c = t.first();
        let rest = t.drop_first();
        assert(e == spec_esc_byte(c) + spec_escape(rest));
        let erest = spec_escape(rest);
        if c == QUOTE || c == BACKSLASH {
            assert(spec_esc_byte(c) =~= seq![BACKSLASH, c]);
            assert(e[0] == BACKSLASH && e[1] == c);
            assert(sub[0] == b[p] && sub[1] == b[p + 1]);
            assert(b[p] == BACKSLASH && b[p + 1] == c);
            assert forall|i: int| 0 <= i < erest.len() + 1 implies b[p + 2 + i] == (erest
                + seq![QUOTE])[i] by {
                assert(sub[2 + i] == b[p + 2 + i]);
                assert((e + seq![QUOTE])[2 + i] == (erest + seq![QUOTE])[i]);
            }
            assert(b.subrange(p + 2, p + 2 + erest.len() + 1) =~= erest + seq![QUOTE]);
            lemma_scan_string_complete(b, p + 2, acc.push(c), rest);
            assert(acc.push(c) + rest =~= acc + t);
        } else {
            assert(spec_esc_byte(c) =~= seq![c]);
            assert(e[0] == c);
            assert(sub[0] == b[p]);
            assert(b[p] == c);
            assert(c != QUOTE && c != BACKSLASH);
            assert forall|i: int| 0 <= i < erest.len() + 1 implies b[p + 1 + i] == (erest
                + seq![QUOTE])[i] by {
                assert(sub[1 + i] == b[p + 1 + i]);
                assert((e + seq![QUOTE])[1 + i] == (erest + seq![QUOTE])[i]);
            }
            assert(b.subrange(p + 1, p + 1 + erest.len() + 1) =~= erest + seq![QUOTE]);
            lemma_scan_string_complete(b, p + 1, acc.push(c), rest);
            assert(acc.push(c) + rest =~= acc + t);
        }
    }
}

/// What a successful string-token scan consumed and found.
pub proof fn lemma_parse_string_sound(b: Seq<u8>, p: int)
    requires
        spec_parse_string_at(b, p) is Some,
    ensures
        ({
            let (s, q) = spec_parse_string_at(b, p)->Some_0;
            &&& 0 <= p < q <= b.len()
            &&& q == p + spec_quoted(s).len()
            &&& b.subrange(p, q) == spec_quoted(s)
        }),
{
    let (s, q) = spec_parse_string_at(b, p)->Some_0;
    lemma_scan_string_sound(b, p + 1, Seq::empty());
    assert(s.skip(0) =~= s);
    assert(b.subrange(p, q) =~= seq![QUOTE] + b.subrange(p + 1, q));
    assert(b.subrange(p, q) =~= spec_quoted(s));
}

/// A string-token scan over the quoted form of `s` finds `s`.
pub proof fn lemma_parse_string_complete(b: Seq<u8>, p: int, s: Seq<u8>)
    requires
        0 <= p,
        p + spec_quoted(s).len() <= b.len(),
        b.subrange(p, p + spec_quoted(s).len()) == spec_quoted(s),
    ensures
        spec_parse_string_at(b, p) == Some((s, p + spec_quoted(s).len())),
{
    let e = spec_escape(s);
    let qd = spec_quoted(s);
    let sub = b.subrange(p, p + qd.len());
    assert(sub == qd);
    assert(sub[0] == b[p] && qd[0] == QUOTE);
    assert forall|i: int| 0 <= i < e.len() + 1 implies b[p + 1 + i] == (e + seq![QUOTE])[i] by {
        assert(sub[1 + i] == b[p + 1 + i]);
        assert(qd[1 + i] == (e + seq![QUOTE])[i]);
    }
    assert(b.subrange(p + 1, p + 1 + e.len() + 1) =~= e + seq![QUOTE]);
    lemma_scan_string_complete(b, p + 1, Seq::empty(), s);
    assert(Seq::empty() + s =~= s);
}

/// Deterministic scan of a decimal number: take digits while they last,
/// refusing values beyond the 64-bit range.
pub open spec fn spec_scan_u64(b: Seq<u8>, p: int, acc: u64) -> Option<(u64, int)>
    decreases b.len() - p,
{
    if 0 <= p < b.len() && is_digit(b[p]) {
        let d = b[p] - 48;
        if acc > (u64::MAX - d) / 10 {
            None
        } else {
            spec_scan_u64(b, p + 1, (acc * 10 + d) as u64)
        }
    } else {
        Some((acc, p))
    }
}

/// Scan of a whole number token: at least one digit, no leading zero.
pub open spec fn spec_parse_u64_at(b: Seq<u8>, p: int) -> Option<(u64, int)> {
    if 0 <= p < b.len() && is_digit(b[p]) {
        if b[p] == 48 {
            if p + 1 < b.len() && is_digit(b[p + 1]) {
                None
            } else {
                Some((0, p + 1))
            }
        } else {
            spec_scan_u64(b, p, 0)
        }
    } else {
        None
    }
}

/// What a successful digit scan consumed: a maximal run of digits appending
/// to the accumulator.
pub proof fn lemma_scan_u64_sound(b: Seq<u8>, p: int, acc: u64)
    requires
        0 <= p <= b.len(),
        spec_scan_u64(b, p, acc) is Some,
    ensures
        ({
            let (v, q) = spec_scan_u64(b, p, acc)->Some_0;
            &&& p <= q <= b.len()
            &&& forall|i: int| p <= i < q ==> is_digit(#[trigger] b[i])
            &&& (q == b.len() || !is_digit(b[q]))
            &&& v == spec_acc_value(acc as int, b.subrange(p, q))
        }),
    decreases b.len() - p,
{
    let (v, q) = spec_scan_u64(b, p, acc)->Some_0;
    if p < b.len() && is_digit(b[p]) {
        let d = b[p] - 48;
        let acc2 = (acc * 10 + d) as u64;
        lemma_scan_u64_sound(b, p + 1, acc2);
        let sub = b.subrange(p, q);
        assert(sub.len() >= 1);
        assert(sub[0] == b[p]);
        lemma_acc_value_cons(acc as int, sub);
        assert(sub.drop_first() =~= b.subrange(p + 1, q));
    } else {
        assert(b.subrange(p, q) =~= Seq::<u8>::empty());
    }
}

/// A digit scan over a maximal digit run appends exactly that run.
pub proof fn lemma_scan_u64_complete(b: Seq<u8>, p: int, acc: u64, d: Seq<u8>)
    requires
        0 <= p,
        p + d.len() <= b.len(),
        b.subrange(p, p + d.len()) == d,
        forall|i: int| 0 <= i < d.len() ==> is_digit(#[trigger] d[i]),
        p + d.len() == b.len() || !is_digit(b[p + d.len()]),
        spec_acc_value(acc as int, d) <= u64::MAX,
    ensures
        spec_scan_u64(b, p, acc) == Some(
            (spec_acc_value(acc as int, d) as u64, p + d.len()),
        ),
    decreases d.len(),
{
    if d.len() == 0 {
        assert(spec_acc_value(acc as int, d) == acc);
    } else {
        assert(b[p] == d[0]);
        let c = d[0] - 48;
        lemma_acc_value_cons(acc as int, d);
        lemma_acc_value_grows(acc as int * 10 + c, d.drop_first());
        assert(acc * 10 + c <= u64::MAX);
        assert(acc <= (u64::MAX - c) / 10) by {
            vstd::arithmetic::div_mod::lemma_fundamental_div_mod(u64::MAX - c, 10);
            vstd::arithmetic::div_mod::lemma_mod_bound(u64::MAX - c, 10);
        }
        let acc2 = (acc * 10 + c) as u64;
        assert(b.subrange(p + 1, p + 1 + d.drop_first().len()) =~= d.drop_first());
        lemma_scan_u64_complete(b, p + 1, acc2, d.drop_first());
    }
}

/// What a successful number-token scan consumed: the canonical spelling of
/// the value, with nothing more to take.
pub proof fn lemma_parse_u64_sound(b: Seq<u8>, p: int)
    requires
        spec_parse_u64_at(b, p) is Some,
    ensures
        ({
            let (v, q) = spec_parse_u64_at(b, p)->Some_0;
            &&& 0 <= p < q <= b.len()
            &&& q == p + spec_dec_digits(v as nat).len()
            &&& b.subrange(p, q) == spec_dec_digits(v as nat)
            &&& (q == b.len() || !is_digit(b[q]))
        }),
{
    let (v, q) = spec_parse_u64_at(b, p)->Some_0;
    if b[p] == 48 {
        assert(b.subrange(p, p + 1) =~= seq![48u8]);
        assert(spec_dec_digits(0) =~= seq![48u8]);
    } else {
        lemma_scan_u64_sound(b, p, 0);
        let sub = b.subrange(p, q);
        assert(sub.len() >= 1 && sub[0] == b[p]);
        lemma_digits_canonical(sub);
        assert(spec_digits_value(sub) == v);
    }
}

/// A number-token scan over the canonical spelling of `v` finds `v`.
pub proof fn lemma_parse_u64_complete(b: Seq<u8>, p: int, v: u64)
    requires
        0 <= p,
        p + spec_dec_digits(v as nat).len() <= b.len(),
        b.subrange(p, p + spec_dec_digits(v as nat).len()) == spec_dec_digits(v as nat),
        p + spec_dec_digits(v as nat).len() == b.len() || !is_digit(
            b[p + spec_dec_digits(v as nat).len()],
        ),
    ensures
        spec_parse_u64_at(b, p) == Some((v, p + spec_dec_digits(v as nat).len())),
{
    let d = spec_dec_digits(v as nat);
    lemma_dec_digits_are_digits(v as nat);
    assert(b[p] == d[0]);
    if v == 0 {
        assert(d =~= seq![48u8]);
    } else {
        lemma_dec_digits_leading(v as nat);
        lemma_dec_digits_value(v as nat);
        lemma_scan_u64_complete(b, p, 0, d);
    }
}

/// Fixed literal at a position.
pub open spec fn spec_parse_lit_at(b: Seq<u8>, p: int, lit: Seq<u8>) -> Option<int> {
    if 0 <= p && p + lit.len() <= b.len() && b.subrange(p, p + lit.len()) == lit {
        Some(p + lit.len())
    } else {
        None
    }
}

/// Scan a whole quoted-string token at `pos`.
pub fn parse_string_at(input: &Vec<u8>, pos: usize) -> (r: Option<(Vec<u8>, usize)>)
    ensures
        match spec_parse_string_at(input@, pos as int) {
            Some((s, q)) => r matches Some((v, vq)) && v@ == s && vq == q,
            None => r is None,
        },
{
    if pos >= input.len() || input[pos] != QUOTE {
        return None;
    }
    let mut acc: Vec<u8> = Vec::new();
    let mut p = pos + 1;
    loop
        invariant
            pos + 1 <= p <= input@.len(),
            spec_parse_string_at(input@, pos as int) == spec_scan_string(input@, p as int, acc@),
        decreases input@.len() - p,
    {
        if p >= input.len() {
            return None;
        }
        let c = input[p];
        if c == QUOTE {
            return Some((acc, p + 1));
        }
        if c == BACKSLASH {
            if p + 1 >= input.len() {
                return None;
            }
            let d = input[p + 1];
            if d == QUOTE || d == BACKSLASH {
                acc.push(d);
                p = p + 2;
            } else {
                return None;
            }
        } else {
            acc.push(c);
            p = p + 1;
        }
    }
}

/// Scan a whole number token at `pos`.
pub fn parse_u64_at(input: &Vec<u8>, pos: usize) -> (r: Option<(u64, usize)>)
    ensures
        match spec_parse_u64_at(input@, pos as int) {
            Some((v, q)) => r matches Some((rv, rq)) && rv == v && rq == q,
            None => r is None,
        },
{
    if pos >= input.len() {
        return None;
    }
    let first = input[pos];
    if !(48 <= first && first <= 57) {
        return None;
    }
    if first == 48 {
        if pos + 1 < input.len() {
            let nxt = input[pos + 1];
            if 48 <= nxt && nxt <= 57 {
                return None;
            }
        }
        return Some((0, pos + 1));
    }
    let mut acc: u64 = 0;
    let mut p = pos;
    loop
        invariant
            pos <= p <= input@.len(),
            spec_parse_u64_at(input@, pos as int) == spec_scan_u64(input@, p as int, acc),
        decreases input@.len() - p,
    {
        if p >= input.len() {
            return Some((acc, p));
        }
        let c = input[p];
        if !(48 <= c && c <= 57) {
            return Some((acc, p));
        }
        let d = c - 48;
        if acc > (u64::MAX - d as u64) / 10 {
            return None;
        }
        acc = acc * 10 + d as u64;
        p = p + 1;
    }
}

/// Match the bytes of `lit` at `pos`.
pub fn parse_lit_at(input: &Vec<u8>, pos: usize, lit: &Vec<u8>) -> (r: Option<usize>)
    ensures
        match spec_parse_lit_at(input@, pos as int, lit@) {
            Some(q) => r matches Some(rq) && rq == q,
            None => r is None,
        },
{
    let n = lit.len();
    if n > input.len() || pos > input.len() - n {
        return None;
    }
    for i in 0..n
        invariant
            n == lit@.len(),
            pos + n <= input@.len(),
            input@.len() <= usize::MAX,
            forall|j: int| 0 <= j < i ==> input@[pos + j] == lit@[j],
    {
        if input[pos + i] != lit[i] {
            proof {
                assert(input@.subrange(pos as int, pos + n)[i as int] != lit@[i as int]);
            }
            return None;
        }
    }
    proof {
        assert(input@.subrange(pos as int, pos + n) =~= lit@);
    }
    Some(pos + n)
}

} // verus!
