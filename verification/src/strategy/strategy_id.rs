use vstd::prelude::*;
use vstd::utf8::{encode_utf8, encode_utf8_decode_utf8};
use crate::order::{
    bytes_before, lemma_bytes_before_irreflexive, lemma_bytes_before_total,
    lemma_bytes_before_transitive,
};

verus! {

/// The identifier of a strategy: the text of an identifier that is unique
/// within the running process, `puid-`, the number of the thread and the
/// count within the thread, both in hexadecimal without leading zeros, with
/// a hyphen between them.
pub type StrategyId = String;

/// Where the last field of an identifier begins: behind its last hyphen, or
/// at the start where it has none.
pub open spec fn last_field(bytes: Seq<u8>) -> int
    decreases bytes.len(),
{
    if bytes.len() == 0 {
        0
    } else if bytes.last() == 45u8 {
        bytes.len() as int
    } else {
        last_field(bytes.drop_last())
    }
}

/// The byte string `a` is shorter than `b`, or as long and before it byte
/// by byte. Of two numbers written in hexadecimal with small letters and
/// without leading zeros, this is the order of the numbers.
pub open spec fn shorter_or_smaller(a: Seq<u8>, b: Seq<u8>) -> bool {
    a.len() < b.len() || (a.len() == b.len() && bytes_before(a, b))
}

/// The order of identifiers, on their UTF-8 encodings: first by what stands
/// before the last field, then by the last field.
pub open spec fn key_before(a: Seq<u8>, b: Seq<u8>) -> bool {
    let head_a = a.take(last_field(a));
    let head_b = b.take(last_field(b));
    shorter_or_smaller(head_a, head_b) || (head_a == head_b && shorter_or_smaller(
        a.skip(last_field(a)),
        b.skip(last_field(b)),
    ))
}

/// The order of the identifiers of strategies: by the number of the thread,
/// then by the count within the thread. It is the order in which the
/// identifiers were made within one thread, and the order in which the exit
/// strategies are kept and run.
pub open spec fn strategy_before(a: Seq<char>, b: Seq<char>) -> bool {
    key_before(encode_utf8(a), encode_utf8(b))
}

pub proof fn lemma_last_field(bytes: Seq<u8>, at: int)
    requires
        0 <= at <= bytes.len(),
        at == 0 || bytes[at - 1] == 45u8,
        forall|i: int| at <= i < bytes.len() ==> bytes[i] != 45u8,
    ensures
        last_field(bytes) == at,
    decreases bytes.len(),
{
    if bytes.len() > at {
        lemma_last_field(bytes.drop_last(), at);
    }
}

pub proof fn lemma_last_field_is_inside(bytes: Seq<u8>)
    ensures
        0 <= last_field(bytes) <= bytes.len(),
    decreases bytes.len(),
{
    if bytes.len() > 0 && bytes.last() != 45u8 {
        lemma_last_field_is_inside(bytes.drop_last());
    }
}

proof fn lemma_shorter_or_smaller_transitive(a: Seq<u8>, b: Seq<u8>, c: Seq<u8>)
    requires
        shorter_or_smaller(a, b),
        shorter_or_smaller(b, c),
    ensures
        shorter_or_smaller(a, c),
{
    if a.len() == b.len() && b.len() == c.len() {
        lemma_bytes_before_transitive(a, b, c);
    }
}

proof fn lemma_shorter_or_smaller_total(a: Seq<u8>, b: Seq<u8>)
    ensures
        a == b || shorter_or_smaller(a, b) || shorter_or_smaller(b, a),
{
    lemma_bytes_before_total(a, b);
}

proof fn lemma_key_before_irreflexive(a: Seq<u8>)
    ensures
        !key_before(a, a),
{
    lemma_bytes_before_irreflexive(a.take(last_field(a)));
    lemma_bytes_before_irreflexive(a.skip(last_field(a)));
}

proof fn lemma_key_before_transitive(a: Seq<u8>, b: Seq<u8>, c: Seq<u8>)
    requires
        key_before(a, b),
        key_before(b, c),
    ensures
        key_before(a, c),
{
    let head_a = a.take(last_field(a));
    let head_b = b.take(last_field(b));
    let head_c = c.take(last_field(c));
    if shorter_or_smaller(head_a, head_b) && shorter_or_smaller(head_b, head_c) {
        lemma_shorter_or_smaller_transitive(head_a, head_b, head_c);
    } else if head_a == head_b && head_b == head_c {
        lemma_shorter_or_smaller_transitive(
            a.skip(last_field(a)),
            b.skip(last_field(b)),
            c.skip(last_field(c)),
        );
    }
}

proof fn lemma_key_before_total(a: Seq<u8>, b: Seq<u8>)
    ensures
        a == b || key_before(a, b) || key_before(b, a),
{
    let head_a = a.take(last_field(a));
    let head_b = b.take(last_field(b));
    lemma_last_field_is_inside(a);
    lemma_last_field_is_inside(b);
    lemma_shorter_or_smaller_total(head_a, head_b);
    if head_a == head_b {
        let tail_a = a.skip(last_field(a));
        let tail_b = b.skip(last_field(b));
        lemma_shorter_or_smaller_total(tail_a, tail_b);
        if tail_a == tail_b {
            assert(a =~= head_a + tail_a);
            assert(b =~= head_b + tail_b);
        }
    }
}

/// No identifier comes before itself.
pub proof fn lemma_strategy_before_irreflexive(a: Seq<char>)
    ensures
        !strategy_before(a, a),
{
    lemma_key_before_irreflexive(encode_utf8(a));
}

pub proof fn lemma_strategy_before_transitive(a: Seq<char>, b: Seq<char>, c: Seq<char>)
    requires
        strategy_before(a, b),
        strategy_before(b, c),
    ensures
        strategy_before(a, c),
{
    lemma_key_before_transitive(encode_utf8(a), encode_utf8(b), encode_utf8(c));
}

/// Of two different identifiers one comes before the other.
pub proof fn lemma_strategy_before_total(a: Seq<char>, b: Seq<char>)
    ensures
        a == b || strategy_before(a, b) || strategy_before(b, a),
{
    lemma_key_before_total(encode_utf8(a), encode_utf8(b));
    encode_utf8_decode_utf8(a);
    encode_utf8_decode_utf8(b);
}

/// The hexadecimal digit of a number below sixteen, with small letters.
pub open spec fn hex_digit(d: nat) -> u8 {
    if d < 10 {
        (48 + d) as u8
    } else {
        (87 + d) as u8
    }
}

/// A number in hexadecimal, with small letters and without leading zeros.
pub open spec fn hex_text(n: nat) -> Seq<u8>
    decreases n,
{
    if n < 16 {
        seq![hex_digit(n)]
    } else {
        hex_text(n / 16).push(hex_digit(n % 16))
    }
}

/// The text of the identifier that the thread of the number `prefix` makes
/// at the count `offset`: `puid-`, the two numbers in hexadecimal, and a
/// hyphen between them.
pub open spec fn puid_text(prefix: nat, offset: nat) -> Seq<u8> {
    seq![112u8, 117u8, 105u8, 100u8, 45u8] + hex_text(prefix) + seq![45u8] + hex_text(offset)
}

proof fn lemma_hex_text_has_no_hyphen(n: nat)
    ensures
        hex_text(n).len() >= 1,
        forall|i: int| 0 <= i < hex_text(n).len() ==> hex_text(n)[i] != 45u8,
    decreases n,
{
    if n >= 16 {
        lemma_hex_text_has_no_hyphen(n / 16);
    }
}

proof fn lemma_bytes_before_push(x: Seq<u8>, y: Seq<u8>, c: u8, d: u8)
    requires
        x.len() == y.len(),
    ensures
        bytes_before(x.push(c), y.push(d)) <==> bytes_before(x, y) || (x == y && c < d),
        x.push(c) == y.push(d) <==> x == y && c == d,
    decreases x.len(),
{
    let a = x.push(c);
    let b = y.push(d);
    if x.len() == 0 {
        assert(x =~= y);
        assert(a.drop_first() =~= Seq::<u8>::empty());
        assert(b.drop_first() =~= Seq::<u8>::empty());
        assert(a[0] == c && b[0] == d);
        assert(!bytes_before(x, y));
        assert(!bytes_before(a.drop_first(), b.drop_first()));
        assert(bytes_before(a, b) == (c < d));
    } else {
        assert(a.drop_first() =~= x.drop_first().push(c));
        assert(b.drop_first() =~= y.drop_first().push(d));
        assert(a[0] == x[0] && b[0] == y[0]);
        lemma_bytes_before_push(x.drop_first(), y.drop_first(), c, d);
        if x[0] != y[0] {
            assert(bytes_before(a, b) == (x[0] < y[0]));
            assert(bytes_before(x, y) == (x[0] < y[0]));
        } else {
            assert(bytes_before(a, b) == bytes_before(a.drop_first(), b.drop_first()));
            assert(bytes_before(x, y) == bytes_before(x.drop_first(), y.drop_first()));
            if x == y {
                assert(x.drop_first() == y.drop_first());
            }
        }
        if x[0] == y[0] {
            if x.drop_first() == y.drop_first() {
                assert(x =~= seq![x[0]] + x.drop_first());
                assert(y =~= seq![y[0]] + y.drop_first());
            }
        }
    }
    if a == b {
        assert(a[x.len() as int] == c && b[y.len() as int] == d);
        assert(x =~= a.drop_last());
        assert(y =~= b.drop_last());
    }
}

proof fn lemma_bytes_before_behind(head: Seq<u8>, x: Seq<u8>, y: Seq<u8>)
    ensures
        bytes_before(head + x, head + y) == bytes_before(x, y),
    decreases head.len(),
{
    if head.len() == 0 {
        assert(head + x =~= x);
        assert(head + y =~= y);
    } else {
        let rest = head.drop_first();
        assert((head + x).drop_first() =~= rest + x);
        assert((head + y).drop_first() =~= rest + y);
        assert((head + x)[0] == (head + y)[0]);
        lemma_bytes_before_behind(rest, x, y);
        if y.len() == 0 {
            if x.len() == 0 {
                assert(head + x =~= head + y);
                lemma_bytes_before_irreflexive(head + x);
            }
        }
    }
}

/// Of two numbers in hexadecimal, the smaller one has the text that is
/// shorter, or as long and first byte by byte.
pub proof fn lemma_hex_text_order(a: nat, b: nat)
    ensures
        shorter_or_smaller(hex_text(a), hex_text(b)) <==> a < b,
        hex_text(a) == hex_text(b) <==> a == b,
    decreases a + b,
{
    lemma_hex_text_sizes(a, b);
    lemma_hex_text_sizes(b, a);
}

proof fn lemma_hex_text_sizes(a: nat, b: nat)
    ensures
        hex_text(a).len() < hex_text(b).len() ==> a < b,
        hex_text(a).len() == hex_text(b).len() ==> (bytes_before(hex_text(a), hex_text(b)) <==> a
            < b),
        hex_text(a).len() == hex_text(b).len() ==> (hex_text(a) == hex_text(b) <==> a == b),
    decreases a + b,
{
    lemma_hex_text_has_no_hyphen(a);
    lemma_hex_text_has_no_hyphen(b);
    if a < 16 && b < 16 {
        let x = hex_text(a);
        let y = hex_text(b);
        assert(x[0] == hex_digit(a) && y[0] == hex_digit(b));
        assert(x.drop_first() =~= Seq::<u8>::empty());
        assert(y.drop_first() =~= Seq::<u8>::empty());
        if a == b {
            lemma_bytes_before_irreflexive(x);
        }
    } else if a < 16 {
        lemma_hex_text_has_no_hyphen(b / 16);
    } else if b < 16 {
        lemma_hex_text_has_no_hyphen(a / 16);
    } else {
        lemma_hex_text_sizes(a / 16, b / 16);
        if hex_text(a).len() == hex_text(b).len() {
            lemma_bytes_before_push(
                hex_text(a / 16),
                hex_text(b / 16),
                hex_digit(a % 16),
                hex_digit(b % 16),
            );
        }
    }
}

/// On the identifiers that the outside crate makes, the order of
/// identifiers is the order of the outside type: by the number of the
/// thread, then by the count.
pub proof fn law_order_of_identifiers(prefix: nat, offset: nat, other_prefix: nat, other_offset: nat)
    ensures
        key_before(puid_text(prefix, offset), puid_text(other_prefix, other_offset)) <==> prefix
            < other_prefix || (prefix == other_prefix && offset < other_offset),
{
    let puid = seq![112u8, 117u8, 105u8, 100u8, 45u8];
    let a = puid_text(prefix, offset);
    let b = puid_text(other_prefix, other_offset);
    let head_a = puid + hex_text(prefix) + seq![45u8];
    let head_b = puid + hex_text(other_prefix) + seq![45u8];
    lemma_hex_text_has_no_hyphen(prefix);
    lemma_hex_text_has_no_hyphen(offset);
    lemma_hex_text_has_no_hyphen(other_prefix);
    lemma_hex_text_has_no_hyphen(other_offset);
    lemma_last_field(a, head_a.len() as int);
    lemma_last_field(b, head_b.len() as int);
    assert(a.take(head_a.len() as int) =~= head_a);
    assert(b.take(head_b.len() as int) =~= head_b);
    assert(a.skip(head_a.len() as int) =~= hex_text(offset));
    assert(b.skip(head_b.len() as int) =~= hex_text(other_offset));
    lemma_hex_text_order(prefix, other_prefix);
    lemma_hex_text_order(offset, other_offset);
    assert(head_a =~= (puid + hex_text(prefix)).push(45u8));
    assert(head_b =~= (puid + hex_text(other_prefix)).push(45u8));
    if hex_text(prefix).len() == hex_text(other_prefix).len() {
        lemma_bytes_before_push(puid + hex_text(prefix), puid + hex_text(other_prefix), 45u8, 45u8);
        lemma_bytes_before_behind(puid, hex_text(prefix), hex_text(other_prefix));
        if puid + hex_text(prefix) == puid + hex_text(other_prefix) {
            assert(hex_text(prefix) =~= (puid + hex_text(prefix)).skip(5));
            assert(hex_text(other_prefix) =~= (puid + hex_text(other_prefix)).skip(5));
        }
    }
}

/// Where the last field begins.
fn last_field_of(bytes: &[u8]) -> (at: usize)
    ensures
        at == last_field(bytes@),
        at <= bytes.len(),
{
    let mut at: usize = bytes.len();
    while at > 0 && bytes[at - 1] != 45u8
        invariant
            at <= bytes.len(),
            forall|i: int| at <= i < bytes.len() ==> bytes@[i] != 45u8,
        decreases at,
    {
        at = at - 1;
    }
    proof {
        lemma_last_field(bytes@, at as int);
    }
    at
}

/// Compares `n` bytes of `x` from `from_x` on with `n` bytes of `y` from
/// `from_y` on: whether the first come before the second byte by byte, and
/// whether they are the same.
fn compare_bytes(x: &[u8], from_x: usize, y: &[u8], from_y: usize, n: usize) -> (r: (bool, bool))
    requires
        from_x + n <= x.len(),
        from_y + n <= y.len(),
    ensures
        r.0 == bytes_before(
            x@.subrange(from_x as int, from_x + n),
            y@.subrange(from_y as int, from_y + n),
        ),
        r.1 == (x@.subrange(from_x as int, from_x + n) == y@.subrange(
            from_y as int,
            from_y + n,
        )),
{
    let ghost a = x@.subrange(from_x as int, from_x + n);
    let ghost b = y@.subrange(from_y as int, from_y + n);
    let mut i: usize = 0;
    assert(a.skip(0) =~= a && b.skip(0) =~= b);
    while i < n
        invariant
            i <= n,
            from_x + n <= x.len(),
            from_y + n <= y.len(),
            a == x@.subrange(from_x as int, from_x + n),
            b == y@.subrange(from_y as int, from_y + n),
            bytes_before(a, b) == bytes_before(a.skip(i as int), b.skip(i as int)),
            forall|j: int| 0 <= j < i ==> a[j] == b[j],
        decreases n - i,
    {
        assert(a.skip(i as int).drop_first() =~= a.skip(i as int + 1));
        assert(b.skip(i as int).drop_first() =~= b.skip(i as int + 1));
        assert(a[i as int] == x[from_x + i] && b[i as int] == y[from_y + i]);
        if x[from_x + i] != y[from_y + i] {
            return (x[from_x + i] < y[from_y + i], false);
        }
        i = i + 1;
    }
    assert(a =~= b);
    proof {
        lemma_bytes_before_irreflexive(a);
    }
    (false, true)
}

/// Whether the identifier `a` comes before `b`.
pub fn strategy_is_before(a: &str, b: &str) -> (r: bool)
    ensures
        r == strategy_before(a@, b@),
{
    let x = a.as_bytes();
    let y = b.as_bytes();
    let cut_x = last_field_of(x);
    let cut_y = last_field_of(y);
    assert(x@.take(cut_x as int) =~= x@.subrange(0, cut_x as int));
    assert(y@.take(cut_y as int) =~= y@.subrange(0, cut_y as int));
    assert(x@.skip(cut_x as int) =~= x@.subrange(cut_x as int, x.len() as int));
    assert(y@.skip(cut_y as int) =~= y@.subrange(cut_y as int, y.len() as int));
    if cut_x < cut_y {
        return true;
    }
    if cut_x > cut_y {
        return false;
    }
    let (before, same) = compare_bytes(x, 0, y, 0, cut_x);
    if !same {
        return before;
    }
    proof {
        lemma_bytes_before_irreflexive(x@.take(cut_x as int));
    }
    let rest_x = x.len() - cut_x;
    let rest_y = y.len() - cut_y;
    if rest_x < rest_y {
        return true;
    }
    if rest_x > rest_y {
        return false;
    }
    let (before, _) = compare_bytes(x, cut_x, y, cut_y, rest_x);
    before
}

} // verus!
