//! Byte-string utilities shared by the feed, cache and index formats and by
//! version handling: splitting on a separator byte, decimal numbers, ASCII
//! lowercasing, and a lexicographic three-way comparison.

use vstd::prelude::*;

verus! {

/// Splits `s` on the separator byte; a sequence of length `n` with `k`
/// separators yields `k + 1` pieces, empty pieces included.
pub open spec fn spec_split(s: Seq<u8>, sep: u8) -> Seq<Seq<u8>>
    decreases s.len(),
{
    if s.len() == 0 {
        seq![Seq::<u8>::empty()]
    } else if s[0] == sep {
        seq![Seq::<u8>::empty()] + spec_split(s.drop_first(), sep)
    } else {
        let rest = spec_split(s.drop_first(), sep);
        seq![seq![s[0]] + rest[0]] + rest.drop_first()
    }
}

pub proof fn lemma_split_nonempty(s: Seq<u8>, sep: u8)
    ensures
        spec_split(s, sep).len() >= 1,
    decreases s.len(),
{
    if s.len() > 0 {
        lemma_split_nonempty(s.drop_first(), sep);
    }
}

/// Removes the empty pieces, as when blank lines are skipped.
pub open spec fn spec_drop_empty(ss: Seq<Seq<u8>>) -> Seq<Seq<u8>>
    decreases ss.len(),
{
    if ss.len() == 0 {
        Seq::empty()
    } else if ss[0].len() == 0 {
        spec_drop_empty(ss.drop_first())
    } else {
        seq![ss[0]] + spec_drop_empty(ss.drop_first())
    }
}

pub open spec fn is_digit(b: u8) -> bool {
    48 <= b <= 57
}

pub open spec fn is_digits(s: Seq<u8>) -> bool {
    s.len() > 0 && forall|i: int| 0 <= i < s.len() ==> is_digit(s[i])
}

/// The value of a digit string, most significant digit first.
pub open spec fn dec_val(s: Seq<u8>) -> int
    decreases s.len(),
{
    if s.len() == 0 {
        0
    } else {
        dec_val(s.drop_last()) * 10 + (s.last() - 48)
    }
}

pub open spec fn spec_parse_u64(s: Seq<u8>) -> Option<u64> {
    if is_digits(s) && dec_val(s) <= u64::MAX {
        Some(dec_val(s) as u64)
    } else {
        None
    }
}

pub proof fn lemma_dec_val_nonneg(s: Seq<u8>)
    requires
        forall|i: int| 0 <= i < s.len() ==> is_digit(s[i]),
    ensures
        dec_val(s) >= 0,
    decreases s.len(),
{
    if s.len() > 0 {
        lemma_dec_val_nonneg(s.drop_last());
    }
}

pub proof fn lemma_dec_val_prefix_le(s: Seq<u8>, i: int)
    requires
        forall|k: int| 0 <= k < s.len() ==> is_digit(s[k]),
        0 <= i <= s.len(),
    ensures
        dec_val(s.take(i)) <= dec_val(s),
    decreases s.len() - i,
{
    if i < s.len() {
        lemma_dec_val_prefix_le(s, i + 1);
        assert(s.take(i + 1).drop_last() =~= s.take(i));
        assert(dec_val(s.take(i + 1)) == dec_val(s.take(i)) * 10 + (s[i] - 48));
        lemma_dec_val_nonneg(s.take(i));
    } else {
        assert(s.take(i) =~= s);
    }
}

/// The decimal rendering of a non-negative number, without leading zeros.
pub open spec fn spec_render_u64(n: int) -> Seq<u8>
    decreases n,
{
    if n < 10 {
        seq![(48 + if n >= 0 { n } else { 0 }) as u8]
    } else {
        spec_render_u64(n / 10) + seq![(48 + n % 10) as u8]
    }
}

/// Lexicographic three-way comparison: -1, 0 or 1; a strict prefix orders
/// before its extensions.
pub open spec fn lex_cmp(a: Seq<int>, b: Seq<int>) -> int
    decreases a.len(),
{
    if a.len() == 0 && b.len() == 0 {
        0
    } else if a.len() == 0 {
        -1
    } else if b.len() == 0 {
        1
    } else if a[0] < b[0] {
        -1
    } else if a[0] > b[0] {
        1
    } else {
        lex_cmp(a.drop_first(), b.drop_first())
    }
}

pub proof fn lemma_lex_cmp_zero(a: Seq<int>, b: Seq<int>)
    ensures
        lex_cmp(a, b) == 0 <==> a == b,
    decreases a.len(),
{
    if a.len() == 0 && b.len() == 0 {
        assert(a =~= b);
    } else if a.len() > 0 && b.len() > 0 && a[0] == b[0] {
        lemma_lex_cmp_zero(a.drop_first(), b.drop_first());
        if lex_cmp(a, b) == 0 {
            assert(a.drop_first() == b.drop_first());
            assert forall|i: int| 0 <= i < a.len() implies a[i] == b[i] by {
                if i > 0 {
                    assert(a[i] == a.drop_first()[i - 1]);
                    assert(b[i] == b.drop_first()[i - 1]);
                }
            }
            assert(a =~= b);
        }
    }
}

pub proof fn lemma_lex_cmp_antisym(a: Seq<int>, b: Seq<int>)
    ensures
        lex_cmp(a, b) == -lex_cmp(b, a),
    decreases a.len(),
{
    if a.len() > 0 && b.len() > 0 && a[0] == b[0] {
        lemma_lex_cmp_antisym(a.drop_first(), b.drop_first());
    }
}

pub proof fn lemma_lex_cmp_trans(a: Seq<int>, b: Seq<int>, c: Seq<int>)
    requires
        lex_cmp(a, b) <= 0,
        lex_cmp(b, c) <= 0,
    ensures
        lex_cmp(a, c) <= 0,
    decreases a.len() + b.len() + c.len(),
{
    if a.len() > 0 && b.len() > 0 && c.len() > 0 {
        if a[0] == b[0] && b[0] == c[0] {
            lemma_lex_cmp_trans(a.drop_first(), b.drop_first(), c.drop_first());
        }
    }
}

pub open spec fn seq_u8_int(s: Seq<u8>) -> Seq<int> {
    s.map_values(|x: u8| x as int)
}

pub open spec fn seq_u64_int(s: Seq<u64>) -> Seq<int> {
    s.map_values(|x: u64| x as int)
}

pub open spec fn lower_byte(b: u8) -> u8 {
    if 65 <= b <= 90 {
        (b + 32) as u8
    } else {
        b
    }
}

/// ASCII lowercasing; bytes outside 'A'..'Z' pass through.
pub open spec fn spec_lower(s: Seq<u8>) -> Seq<u8> {
    s.map_values(|b: u8| lower_byte(b))
}

fn split_bytes_from(s: &Vec<u8>, from: usize, sep: u8) -> (r: Vec<Vec<u8>>)
    requires
        from <= s.len(),
    ensures
        r.deep_view() == spec_split(s@.subrange(from as int, s@.len() as int), sep),
    decreases s.len() - from,
{
    let ghost tail = s@.subrange(from as int, s@.len() as int);
    if from == s.len() {
        let mut r: Vec<Vec<u8>> = Vec::new();
        r.push(Vec::new());
        proof {
            assert(tail =~= Seq::<u8>::empty());
            assert(r.deep_view() =~~= spec_split(tail, sep));
        }
        r
    } else {
        proof {
            assert(tail.drop_first() =~= s@.subrange(from + 1, s@.len() as int));
            assert(tail[0] == s@[from as int]);
        }
        let mut r = split_bytes_from(s, from + 1, sep);
        if s[from] == sep {
            r.insert(0, Vec::new());
            proof {
                assert(r.deep_view() =~~= spec_split(tail, sep));
            }
            r
        } else {
            proof {
                lemma_split_nonempty(tail.drop_first(), sep);
            }
            let mut first = r.remove(0);
            first.insert(0, s[from]);
            r.insert(0, first);
            proof {
                let rest = spec_split(tail.drop_first(), sep);
                assert(r.deep_view() =~~= seq![seq![tail[0]] + rest[0]] + rest.drop_first());
            }
            r
        }
    }
}

/// Splits `s` on the separator byte, empty pieces included.
pub fn split_bytes(s: &Vec<u8>, sep: u8) -> (r: Vec<Vec<u8>>)
    ensures
        r.deep_view() == spec_split(s@, sep),
{
    let r = split_bytes_from(s, 0, sep);
    proof {
        assert(s@.subrange(0, s@.len() as int) =~= s@);
    }
    r
}

fn drop_empty_from(ss: &Vec<Vec<u8>>, from: usize) -> (r: Vec<Vec<u8>>)
    requires
        from <= ss.len(),
    ensures
        r.deep_view() == spec_drop_empty(
            ss.deep_view().subrange(from as int, ss.len() as int),
        ),
    decreases ss.len() - from,
{
    let ghost tail = ss.deep_view().subrange(from as int, ss.len() as int);
    if from == ss.len() {
        let r: Vec<Vec<u8>> = Vec::new();
        proof {
            assert(tail =~= Seq::<Seq<u8>>::empty());
            assert(r.deep_view() =~~= spec_drop_empty(tail));
        }
        r
    } else {
        proof {
            assert(tail.drop_first() =~= ss.deep_view().subrange(from + 1, ss.len() as int));
            assert(tail[0] == ss.deep_view()[from as int]);
        }
        let mut r = drop_empty_from(ss, from + 1);
        if ss[from].len() == 0 {
            r
        } else {
            let piece = clone_bytes(&ss[from]);
            r.insert(0, piece);
            proof {
                assert(r.deep_view() =~~= seq![tail[0]] + spec_drop_empty(tail.drop_first()));
            }
            r
        }
    }
}

/// Removes the empty pieces from a split.
pub fn drop_empty(ss: &Vec<Vec<u8>>) -> (r: Vec<Vec<u8>>)
    ensures
        r.deep_view() == spec_drop_empty(ss.deep_view()),
{
    let r = drop_empty_from(ss, 0);
    proof {
        assert(ss.deep_view().subrange(0, ss.len() as int) =~= ss.deep_view());
    }
    r
}

/// A byte-for-byte copy.
pub fn clone_bytes(s: &Vec<u8>) -> (r: Vec<u8>)
    ensures
        r@ == s@,
{
    let mut out: Vec<u8> = Vec::new();
    let mut i: usize = 0;
    while i < s.len()
        invariant
            0 <= i <= s.len(),
            out@ =~= s@.take(i as int),
        decreases s.len() - i,
    {
        out.push(s[i]);
        proof {
            assert(out@ =~= s@.take(i + 1));
        }
        i = i + 1;
    }
    proof {
        assert(s@.take(i as int) =~= s@);
    }
    out
}

/// Parses a decimal u64; fails on an empty string, a non-digit byte, or a
/// value over `u64::MAX`.
pub fn parse_u64(s: &Vec<u8>) -> (r: Option<u64>)
    ensures
        r == spec_parse_u64(s@),
{
    if s.len() == 0 {
        return None;
    }
    let mut acc: u64 = 0;
    let mut i: usize = 0;
    while i < s.len()
        invariant
            0 <= i <= s.len(),
            forall|k: int| 0 <= k < i ==> is_digit(s@[k]),
            acc as int == dec_val(s@.take(i as int)),
        decreases s.len() - i,
    {
        let b = s[i];
        if b < 48 || b > 57 {
            return None;
        }
        let d: u64 = (b - 48) as u64;
        proof {
            assert(s@.take(i + 1).drop_last() =~= s@.take(i as int));
            assert(dec_val(s@.take(i + 1)) == acc as int * 10 + d);
        }
        if acc > (u64::MAX - d) / 10 {
            proof {
                vstd::arithmetic::div_mod::lemma_fundamental_div_mod(
                    (u64::MAX - d) as int,
                    10,
                );
                assert(acc as int * 10 + d > u64::MAX) by (nonlinear_arith)
                    requires
                        acc as int > ((u64::MAX - d) as int) / 10,
                        ((u64::MAX - d) as int) == 10 * (((u64::MAX - d) as int) / 10) + (
                        (u64::MAX - d) as int) % 10,
                        0 <= ((u64::MAX - d) as int) % 10 < 10,
                        0 <= d <= 9,
                ;
                if is_digits(s@) {
                    lemma_dec_val_prefix_le(s@, i + 1);
                }
            }
            return None;
        }
        acc = acc * 10 + d;
        i = i + 1;
    }
    proof {
        assert(s@.take(i as int) =~= s@);
    }
    Some(acc)
}

/// Renders a u64 in decimal, most significant digit first.
pub fn render_u64(n: u64) -> (r: Vec<u8>)
    ensures
        r@ == spec_render_u64(n as int),
    decreases n,
{
    if n < 10 {
        let mut out: Vec<u8> = Vec::new();
        out.push((48 + n) as u8);
        proof {
            assert(out@ =~= spec_render_u64(n as int));
        }
        out
    } else {
        let mut out = render_u64(n / 10);
        out.push((48 + n % 10) as u8);
        proof {
            assert(out@ =~= spec_render_u64((n as int) / 10) + seq![
                (48 + (n as int) % 10) as u8,
            ]);
        }
        out
    }
}

/// Lexicographic three-way comparison of byte strings.
pub fn cmp_bytes(a: &Vec<u8>, b: &Vec<u8>) -> (r: i32)
    ensures
        r as int == lex_cmp(seq_u8_int(a@), seq_u8_int(b@)),
{
    proof {
        assert(seq_u8_int(a@).subrange(0, a@.len() as int) =~= seq_u8_int(a@));
        assert(seq_u8_int(b@).subrange(0, b@.len() as int) =~= seq_u8_int(b@));
    }
    let mut i: usize = 0;
    loop
        invariant
            0 <= i <= a.len(),
            0 <= i <= b.len(),
            lex_cmp(seq_u8_int(a@), seq_u8_int(b@)) == lex_cmp(
                seq_u8_int(a@).subrange(i as int, a@.len() as int),
                seq_u8_int(b@).subrange(i as int, b@.len() as int),
            ),
        decreases a.len() - i,
    {
        proof {
            let ra = seq_u8_int(a@).subrange(i as int, a@.len() as int);
            let rb = seq_u8_int(b@).subrange(i as int, b@.len() as int);
            assert(ra.len() == a@.len() - i && rb.len() == b@.len() - i);
            if i < a.len() && i < b.len() {
                assert(ra[0] == a@[i as int] as int && rb[0] == b@[i as int] as int);
                assert(ra.drop_first() =~= seq_u8_int(a@).subrange(i + 1, a@.len() as int));
                assert(rb.drop_first() =~= seq_u8_int(b@).subrange(i + 1, b@.len() as int));
            }
        }
        if i >= a.len() && i >= b.len() {
            return 0;
        } else if i >= a.len() {
            return -1;
        } else if i >= b.len() {
            return 1;
        } else if a[i] < b[i] {
            return -1;
        } else if a[i] > b[i] {
            return 1;
        }
        i = i + 1;
    }
}

/// Lexicographic three-way comparison of numeric version components.
pub fn cmp_u64s(a: &Vec<u64>, b: &Vec<u64>) -> (r: i32)
    ensures
        r as int == lex_cmp(seq_u64_int(a@), seq_u64_int(b@)),
{
    proof {
        assert(seq_u64_int(a@).subrange(0, a@.len() as int) =~= seq_u64_int(a@));
        assert(seq_u64_int(b@).subrange(0, b@.len() as int) =~= seq_u64_int(b@));
    }
    let mut i: usize = 0;
    loop
        invariant
            0 <= i <= a.len(),
            0 <= i <= b.len(),
            lex_cmp(seq_u64_int(a@), seq_u64_int(b@)) == lex_cmp(
                seq_u64_int(a@).subrange(i as int, a@.len() as int),
                seq_u64_int(b@).subrange(i as int, b@.len() as int),
            ),
        decreases a.len() - i,
    {
        proof {
            let ra = seq_u64_int(a@).subrange(i as int, a@.len() as int);
            let rb = seq_u64_int(b@).subrange(i as int, b@.len() as int);
            assert(ra.len() == a@.len() - i && rb.len() == b@.len() - i);
            if i < a.len() && i < b.len() {
                assert(ra[0] == a@[i as int] as int && rb[0] == b@[i as int] as int);
                assert(ra.drop_first() =~= seq_u64_int(a@).subrange(i + 1, a@.len() as int));
                assert(rb.drop_first() =~= seq_u64_int(b@).subrange(i + 1, b@.len() as int));
            }
        }
        if i >= a.len() && i >= b.len() {
            return 0;
        } else if i >= a.len() {
            return -1;
        } else if i >= b.len() {
            return 1;
        } else if a[i] < b[i] {
            return -1;
        } else if a[i] > b[i] {
            return 1;
        }
        i = i + 1;
    }
}

/// Appends a byte string to a buffer.
pub fn push_all(out: &mut Vec<u8>, s: &Vec<u8>)
    ensures
        final(out)@ == old(out)@ + s@,
{
    let ghost start = out@;
    let mut i: usize = 0;
    while i < s.len()
        invariant
            0 <= i <= s.len(),
            out@ =~= start + s@.take(i as int),
        decreases s.len() - i,
    {
        out.push(s[i]);
        proof {
            assert(out@ =~= start + s@.take(i + 1));
        }
        i = i + 1;
    }
    proof {
        assert(start + s@.take(i as int) =~= start + s@);
    }
}

/// Byte-for-byte equality.
pub fn eq_bytes(a: &Vec<u8>, b: &Vec<u8>) -> (r: bool)
    ensures
        r == (a@ == b@),
{
    if a.len() != b.len() {
        return false;
    }
    let mut i: usize = 0;
    while i < a.len()
        invariant
            0 <= i <= a.len(),
            a@.len() == b@.len(),
            forall|k: int| 0 <= k < i ==> a@[k] == b@[k],
        decreases a.len() - i,
    {
        if a[i] != b[i] {
            return false;
        }
        i = i + 1;
    }
    proof {
        assert(a@ =~= b@);
    }
    true
}

pub const TAB: u8 = 9;

pub const NEWLINE: u8 = 10;

/// A field that can sit inside a tab-separated record line.
pub open spec fn is_clean(s: Seq<u8>) -> bool {
    forall|i: int| 0 <= i < s.len() ==> s[i] != TAB && s[i] != NEWLINE
}

/// Checks that a byte string holds neither a tab nor a newline.
pub fn check_clean(s: &Vec<u8>) -> (r: bool)
    ensures
        r == is_clean(s@),
{
    let mut i: usize = 0;
    while i < s.len()
        invariant
            0 <= i <= s.len(),
            forall|k: int| 0 <= k < i ==> s@[k] != TAB && s@[k] != NEWLINE,
        decreases s.len() - i,
    {
        if s[i] == TAB || s[i] == NEWLINE {
            return false;
        }
        i = i + 1;
    }
    true
}

/// ASCII-lowercases a byte string.
pub fn lower_bytes(s: &Vec<u8>) -> (r: Vec<u8>)
    ensures
        r@ == spec_lower(s@),
{
    let mut out: Vec<u8> = Vec::new();
    let mut i: usize = 0;
    while i < s.len()
        invariant
            0 <= i <= s.len(),
            out@ =~= spec_lower(s@).take(i as int),
        decreases s.len() - i,
    {
        let b = s[i];
        if 65 <= b && b <= 90 {
            out.push(b + 32);
        } else {
            out.push(b);
        }
        proof {
            assert(out@ =~= spec_lower(s@).take(i + 1));
        }
        i = i + 1;
    }
    proof {
        assert(spec_lower(s@).take(i as int) =~= spec_lower(s@));
    }
    out
}

} // verus!
