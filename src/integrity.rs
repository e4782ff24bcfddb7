//! Why altering a confirmed block is caught by `Blockchain::is_valid`.
use vstd::prelude::*;
use vstd::utf8::{encode_utf8, encode_utf8_decode_utf8};
use crate::block::{header_text, Block};
use crate::blockchain::chain_valid;
use crate::digest::{hex_digit, hex_of, sha256_of};
use crate::text::{
    amount_text, decimal_digit, decimal_text, fraction_text, padded_text, UNITS_PER_COIN,
};
use crate::transaction::{
    escaped, escaped_char, list_text, quoted, record_text, records_text, views_of, TransactionView,
};

verus! {

/// The header text of a block, from its own fields.
pub open spec fn header_of(b: Block) -> Seq<char> {
    header_text(b.index, b.timestamp, views_of(b.transactions@), b.previous_hash@, b.nonce)
}

/// The bytes a block's hash digests.
pub open spec fn header_bytes(b: Block) -> Seq<u8> {
    encode_utf8(header_of(b))
}

proof fn lemma_hex_digit_injective(x: int, y: int)
    requires
        0 <= x < 16,
        0 <= y < 16,
        hex_digit(x) == hex_digit(y),
    ensures
        x == y,
{
}

/// Distinct byte sequences have distinct hexadecimal texts.
pub proof fn lemma_hex_injective(a: Seq<u8>, b: Seq<u8>)
    requires
        hex_of(a) == hex_of(b),
    ensures
        a == b,
{
    assert(hex_of(a).len() == 2 * a.len());
    assert(hex_of(b).len() == 2 * b.len());
    assert forall|k: int| 0 <= k < a.len() implies a[k] == b[k] by {
        assert((2 * k) / 2 == k && (2 * k) % 2 == 0);
        assert((2 * k + 1) / 2 == k && (2 * k + 1) % 2 == 1);
        assert(hex_of(a)[2 * k] == hex_of(b)[2 * k]);
        assert(hex_of(a)[2 * k + 1] == hex_of(b)[2 * k + 1]);
        assert(hex_of(a)[2 * k] == hex_digit(a[k] as int / 16));
        assert(hex_of(b)[2 * k] == hex_digit(b[k] as int / 16));
        assert(hex_of(a)[2 * k + 1] == hex_digit(a[k] as int % 16));
        assert(hex_of(b)[2 * k + 1] == hex_digit(b[k] as int % 16));
        lemma_hex_digit_injective(a[k] as int / 16, b[k] as int / 16);
        lemma_hex_digit_injective(a[k] as int % 16, b[k] as int % 16);
    }
    assert(a =~= b);
}

proof fn lemma_decimal_digit_injective(x: int, y: int)
    requires
        0 <= x < 10,
        0 <= y < 10,
        decimal_digit(x) == decimal_digit(y),
    ensures
        x == y,
{
}

proof fn lemma_decimal_len(n: nat)
    ensures
        decimal_text(n).len() >= 1,
        n >= 10 ==> decimal_text(n).len() >= 2,
    decreases n,
{
    if n >= 10 {
        lemma_decimal_len(n / 10);
    }
}

/// Distinct numbers have distinct decimal texts.
pub proof fn lemma_decimal_injective(n: nat, m: nat)
    requires
        decimal_text(n) == decimal_text(m),
    ensures
        n == m,
    decreases n,
{
    lemma_decimal_len(n);
    lemma_decimal_len(m);
    if n < 10 && m < 10 {
        assert(decimal_text(n) == seq![decimal_digit(n as int)]);
        assert(decimal_text(m) == seq![decimal_digit(m as int)]);
        assert(decimal_text(n)[0] == decimal_digit(n as int));
        assert(decimal_text(m)[0] == decimal_digit(m as int));
        lemma_decimal_digit_injective(n as int, m as int);
    } else if n >= 10 && m >= 10 {
        let dn = decimal_text(n);
        let dm = decimal_text(m);
        assert(dn == decimal_text(n / 10).push(decimal_digit((n % 10) as int)));
        assert(dm == decimal_text(m / 10).push(decimal_digit((m % 10) as int)));
        assert(dn.last() == dm.last());
        lemma_decimal_digit_injective((n % 10) as int, (m % 10) as int);
        assert(dn.drop_last() == decimal_text(n / 10));
        assert(dm.drop_last() == decimal_text(m / 10));
        lemma_decimal_injective(n / 10, m / 10);
    }
}

/// Distinct texts have distinct UTF-8 encodings.
proof fn lemma_encode_injective(s: Seq<char>, t: Seq<char>)
    requires
        encode_utf8(s) == encode_utf8(t),
    ensures
        s == t,
{
    encode_utf8_decode_utf8(s);
    encode_utf8_decode_utf8(t);
}

/// Equal texts with a common prefix are equal after it.
proof fn lemma_strip_prefix(p: Seq<char>, x: Seq<char>, y: Seq<char>)
    requires
        p + x == p + y,
    ensures
        x == y,
{
    assert(x =~= (p + x).subrange(p.len() as int, (p + x).len() as int));
    assert(y =~= (p + y).subrange(p.len() as int, (p + y).len() as int));
}

/// Two texts that each begin with a field free of `d`, followed by `d`, have
/// equal fields and equal rests.
proof fn lemma_split_at(x1: Seq<char>, r1: Seq<char>, x2: Seq<char>, r2: Seq<char>, d: char)
    requires
        x1 + r1 == x2 + r2,
        r1.len() > 0 && r1[0] == d,
        r2.len() > 0 && r2[0] == d,
        forall|i: int| 0 <= i < x1.len() ==> x1[i] != d,
        forall|i: int| 0 <= i < x2.len() ==> x2[i] != d,
    ensures
        x1 == x2,
        r1 == r2,
{
    let w = x1 + r1;
    if x1.len() < x2.len() {
        assert(w[x1.len() as int] == r1[0]);
        assert((x2 + r2)[x1.len() as int] == x2[x1.len() as int]);
    } else if x2.len() < x1.len() {
        assert((x2 + r2)[x2.len() as int] == r2[0]);
        assert(w[x2.len() as int] == x1[x2.len() as int]);
    }
    assert(x1 =~= w.subrange(0, x1.len() as int));
    assert(x2 =~= (x2 + r2).subrange(0, x2.len() as int));
    assert(r1 =~= w.subrange(x1.len() as int, w.len() as int));
    assert(r2 =~= (x2 + r2).subrange(x2.len() as int, w.len() as int));
}

proof fn lemma_escaped_front(s: Seq<char>)
    requires
        s.len() > 0,
    ensures
        escaped(s) == escaped_char(s[0]) + escaped(s.drop_first()),
    decreases s.len(),
{
    if s.len() == 1 {
        assert(s.drop_last().len() == 0);
        assert(s.drop_first().len() == 0);
        assert(escaped(s.drop_last()) == Seq::<char>::empty());
        assert(escaped(s.drop_first()) == Seq::<char>::empty());
        assert(escaped(s) =~= escaped_char(s[0]) + escaped(s.drop_first()));
    } else {
        lemma_escaped_front(s.drop_last());
        assert(s.drop_last().drop_first() =~= s.drop_first().drop_last());
        assert(s.drop_first().last() == s.last());
        assert(escaped(s) =~= escaped_char(s[0]) + escaped(s.drop_first()));
    }
}

/// A quoted text is read back unambiguously up to its closing quote.
proof fn lemma_quoted_injective(s1: Seq<char>, x1: Seq<char>, s2: Seq<char>, x2: Seq<char>)
    requires
        quoted(s1) + x1 == quoted(s2) + x2,
    ensures
        s1 == s2,
        x1 == x2,
    decreases s1.len(),
{
    let w = quoted(s1) + x1;
    assert(w =~= escaped(s1) + (seq!['"'] + x1));
    assert(w =~= escaped(s2) + (seq!['"'] + x2));
    if s1.len() == 0 && s2.len() == 0 {
        assert(escaped(s1) == Seq::<char>::empty());
        assert(escaped(s2) == Seq::<char>::empty());
        lemma_strip_prefix(seq!['"'], x1, x2);
        assert(s1 =~= s2);
    } else if s1.len() == 0 {
        assert(escaped(s1) == Seq::<char>::empty());
        lemma_escaped_front(s2);
        let e2 = escaped_char(s2[0]);
        assert(w[0] == '"');
        assert(w[0] == e2[0]);
    } else if s2.len() == 0 {
        assert(escaped(s2) == Seq::<char>::empty());
        lemma_escaped_front(s1);
        let e1 = escaped_char(s1[0]);
        assert(w[0] == '"');
        assert(w[0] == e1[0]);
    } else {
        lemma_escaped_front(s1);
        lemma_escaped_front(s2);
        let e1 = escaped_char(s1[0]);
        let e2 = escaped_char(s2[0]);
        let t1 = s1.drop_first();
        let t2 = s2.drop_first();
        assert(w =~= e1 + (quoted(t1) + x1));
        assert(w =~= e2 + (quoted(t2) + x2));
        assert(w[0] == e1[0]);
        assert(w[0] == e2[0]);
        if e1.len() == 2 && e2.len() == 2 {
            assert(w[1] == e1[1]);
            assert(w[1] == e2[1]);
        }
        assert(s1[0] == s2[0]);
        lemma_strip_prefix(e1, quoted(t1) + x1, quoted(t2) + x2);
        lemma_quoted_injective(t1, x1, t2, x2);
        assert(s1 =~= seq![s1[0]] + t1);
        assert(s2 =~= seq![s2[0]] + t2);
    }
}

/// Ten to the power `k`.
pub open spec fn pow10(k: nat) -> nat
    decreases k,
{
    if k == 0 {
        1
    } else {
        10 * pow10((k - 1) as nat)
    }
}

/// The value of a decimal digit character.
pub open spec fn digit_value(c: char) -> nat {
    if c == '1' {
        1
    } else if c == '2' {
        2
    } else if c == '3' {
        3
    } else if c == '4' {
        4
    } else if c == '5' {
        5
    } else if c == '6' {
        6
    } else if c == '7' {
        7
    } else if c == '8' {
        8
    } else if c == '9' {
        9
    } else {
        0
    }
}

/// The value of a text of decimal digits.
pub open spec fn digits_value(s: Seq<char>) -> nat
    decreases s.len(),
{
    if s.len() == 0 {
        0
    } else {
        digits_value(s.drop_last()) * 10 + digit_value(s.last())
    }
}

proof fn lemma_digit_value(d: int)
    requires
        0 <= d < 10,
    ensures
        digit_value(decimal_digit(d)) == d,
        decimal_digit(d) != '.',
        decimal_digit(d) != ',',
{
}

proof fn lemma_padded(f: nat, w: nat)
    requires
        f < pow10(w),
    ensures
        padded_text(f, w).len() == w,
        digits_value(padded_text(f, w)) == f,
        forall|i: int|
            0 <= i < padded_text(f, w).len() ==> padded_text(f, w)[i] != '.' && padded_text(
                f,
                w,
            )[i] != ',',
    decreases w,
{
    if w > 0 {
        lemma_padded(f / 10, (w - 1) as nat);
        lemma_digit_value((f % 10) as int);
        let p = padded_text(f, w);
        assert(p.drop_last() == padded_text(f / 10, (w - 1) as nat));
    }
}

proof fn lemma_fraction(f: nat, w: nat)
    requires
        f < pow10(w),
    ensures
        fraction_text(f, w).len() <= w,
        f == digits_value(fraction_text(f, w)) * pow10((w - fraction_text(f, w).len()) as nat),
        forall|i: int|
            0 <= i < fraction_text(f, w).len() ==> fraction_text(f, w)[i] != '.' && fraction_text(
                f,
                w,
            )[i] != ',',
    decreases w,
{
    if w > 0 && f % 10 == 0 {
        lemma_fraction(f / 10, (w - 1) as nat);
        let t = fraction_text(f, w);
        let v = digits_value(t);
        assert(t == fraction_text(f / 10, (w - 1) as nat));
        let k = (w - 1 - t.len()) as nat;
        assert(f / 10 == v * pow10(k));
        assert(pow10((k + 1) as nat) == 10 * pow10(k));
        assert(f == 10 * (f / 10));
        assert(10 * (v * pow10(k)) == v * (10 * pow10(k))) by (nonlinear_arith);
        assert((w - t.len()) as nat == (k + 1) as nat);
    } else {
        lemma_padded(f, w);
        assert(fraction_text(f, w) == padded_text(f, w));
        assert(pow10(0) == 1);
        assert((w - fraction_text(f, w).len()) as nat == 0);
        assert(f == digits_value(fraction_text(f, w)) * 1);
    }
}

proof fn lemma_decimal_plain(n: nat)
    ensures
        forall|i: int|
            0 <= i < decimal_text(n).len() ==> decimal_text(n)[i] != '.' && decimal_text(n)[i]
                != ',',
    decreases n,
{
    if n >= 10 {
        lemma_decimal_plain(n / 10);
        lemma_digit_value((n % 10) as int);
        assert(decimal_text(n).drop_last() == decimal_text(n / 10));
    } else {
        lemma_digit_value(n as int);
    }
}

/// The digits after the point of an amount's text.
spec fn fraction_part(u: nat) -> Seq<char> {
    if u % (UNITS_PER_COIN as nat) == 0 {
        seq!['0']
    } else {
        fraction_text(u % (UNITS_PER_COIN as nat), 8)
    }
}

proof fn lemma_amount_shape(u: nat)
    ensures
        amount_text(u, true) == decimal_text(u / (UNITS_PER_COIN as nat)) + (seq!['.']
            + fraction_part(u)),
        u % (UNITS_PER_COIN as nat) == digits_value(fraction_part(u)) * pow10(
            (8 - fraction_part(u).len()) as nat,
        ),
        fraction_part(u).len() <= 8,
        forall|i: int|
            0 <= i < amount_text(u, true).len() ==> amount_text(u, true)[i] != ',',
{
    assert(pow10(8) == 100_000_000) by {
        reveal_with_fuel(pow10, 9);
    }
    let f = u % (UNITS_PER_COIN as nat);
    lemma_decimal_plain(u / (UNITS_PER_COIN as nat));
    if f == 0 {
        let z = seq!['0'];
        assert(z.drop_last() =~= Seq::<char>::empty());
        assert(digits_value(z.drop_last()) == 0);
        assert(z.last() == '0');
        assert(digit_value('0') == 0);
        assert(digits_value(z) == 0);
        assert(amount_text(u, true) =~= decimal_text(u / (UNITS_PER_COIN as nat)) + (seq!['.']
            + fraction_part(u)));
    } else {
        lemma_fraction(f, 8);
        assert(amount_text(u, true) =~= decimal_text(u / (UNITS_PER_COIN as nat)) + (seq!['.']
            + fraction_part(u)));
    }
}

/// An amount's text, followed by a comma, is read back unambiguously.
proof fn lemma_amount_injective(u1: nat, x1: Seq<char>, u2: nat, x2: Seq<char>)
    requires
        amount_text(u1, true) + x1 == amount_text(u2, true) + x2,
        x1.len() > 0 && x1[0] == ',',
        x2.len() > 0 && x2[0] == ',',
    ensures
        u1 == u2,
        x1 == x2,
{
    lemma_amount_shape(u1);
    lemma_amount_shape(u2);
    lemma_split_at(amount_text(u1, true), x1, amount_text(u2, true), x2, ',');
    let c = UNITS_PER_COIN as nat;
    lemma_decimal_plain(u1 / c);
    lemma_decimal_plain(u2 / c);
    lemma_split_at(
        decimal_text(u1 / c),
        seq!['.'] + fraction_part(u1),
        decimal_text(u2 / c),
        seq!['.'] + fraction_part(u2),
        '.',
    );
    lemma_decimal_injective(u1 / c, u2 / c);
    lemma_strip_prefix(seq!['.'], fraction_part(u1), fraction_part(u2));
    assert(u1 == c * (u1 / c) + u1 % c);
    assert(u2 == c * (u2 / c) + u2 % c);
}

/// A transaction's record text is read back unambiguously.
proof fn lemma_record_injective(
    t1: TransactionView,
    x1: Seq<char>,
    t2: TransactionView,
    x2: Seq<char>,
)
    requires
        record_text(t1) + x1 == record_text(t2) + x2,
    ensures
        t1 == t2,
        x1 == x2,
{
    reveal_strlit(", fee: ");
    reveal_strlit(", signature: \"");
    let l0 = "Transaction { sender: \""@;
    let l1 = ", receiver: \""@;
    let l2 = ", amount: "@;
    let l3 = ", fee: "@;
    let l4 = ", signature: \""@;
    let l5 = " }"@;
    let g5_1 = quoted(t1.signature) + (l5 + x1);
    let g5_2 = quoted(t2.signature) + (l5 + x2);
    let g4_1 = l4 + g5_1;
    let g4_2 = l4 + g5_2;
    let g3_1 = amount_text(t1.fee as nat, true) + g4_1;
    let g3_2 = amount_text(t2.fee as nat, true) + g4_2;
    let g2_1 = l3 + g3_1;
    let g2_2 = l3 + g3_2;
    let g1_1 = amount_text(t1.amount as nat, true) + g2_1;
    let g1_2 = amount_text(t2.amount as nat, true) + g2_2;
    let h1 = quoted(t1.receiver) + (l2 + g1_1);
    let h2 = quoted(t2.receiver) + (l2 + g1_2);
    let k1 = quoted(t1.sender) + (l1 + h1);
    let k2 = quoted(t2.sender) + (l1 + h2);
    assert(record_text(t1) + x1 =~= l0 + k1);
    assert(record_text(t2) + x2 =~= l0 + k2);
    lemma_strip_prefix(l0, k1, k2);
    lemma_quoted_injective(t1.sender, l1 + h1, t2.sender, l1 + h2);
    lemma_strip_prefix(l1, h1, h2);
    lemma_quoted_injective(t1.receiver, l2 + g1_1, t2.receiver, l2 + g1_2);
    lemma_strip_prefix(l2, g1_1, g1_2);
    lemma_amount_injective(t1.amount as nat, g2_1, t2.amount as nat, g2_2);
    lemma_strip_prefix(l3, g3_1, g3_2);
    lemma_amount_injective(t1.fee as nat, g4_1, t2.fee as nat, g4_2);
    lemma_strip_prefix(l4, g5_1, g5_2);
    lemma_quoted_injective(t1.signature, l5 + x1, t2.signature, l5 + x2);
    lemma_strip_prefix(l5, x1, x2);
}

proof fn lemma_records_front(ts: Seq<TransactionView>)
    requires
        ts.len() >= 2,
    ensures
        records_text(ts) == record_text(ts[0]) + (", "@ + records_text(ts.drop_first())),
    decreases ts.len(),
{
    if ts.len() == 2 {
        assert(ts.drop_last() =~= seq![ts[0]]);
        assert(ts.drop_first() =~= seq![ts[1]]);
        assert(records_text(ts.drop_last()) == record_text(ts[0]));
        assert(records_text(ts.drop_first()) == record_text(ts[1]));
        assert(records_text(ts) =~= record_text(ts[0]) + (", "@ + records_text(ts.drop_first())));
    } else {
        lemma_records_front(ts.drop_last());
        assert(ts.drop_last().drop_first() =~= ts.drop_first().drop_last());
        assert(ts.drop_first().last() == ts.last());
        assert(ts.drop_first().len() >= 2);
        assert(records_text(ts) =~= record_text(ts[0]) + (", "@ + records_text(ts.drop_first())));
    }
}

/// The records text of a non-empty list followed by `]` is the first record
/// followed by the rest.
proof fn lemma_records_split(ts: Seq<TransactionView>)
    requires
        ts.len() >= 1,
    ensures
        records_text(ts) + "]"@ == record_text(ts[0]) + (if ts.len() == 1 {
            "]"@
        } else {
            ", "@ + (records_text(ts.drop_first()) + "]"@)
        }),
{
    if ts.len() == 1 {
        assert(ts.drop_last().len() == 0);
    } else {
        lemma_records_front(ts);
        assert(records_text(ts) + "]"@ =~= record_text(ts[0]) + (", "@ + (records_text(
            ts.drop_first(),
        ) + "]"@)));
    }
}

proof fn lemma_records_injective(ts1: Seq<TransactionView>, ts2: Seq<TransactionView>)
    requires
        records_text(ts1) + "]"@ == records_text(ts2) + "]"@,
    ensures
        ts1 == ts2,
    decreases ts1.len(),
{
    reveal_strlit("]");
    reveal_strlit(", ");
    reveal_strlit("Transaction { sender: \"");
    let w = records_text(ts1) + "]"@;
    if ts1.len() == 0 && ts2.len() == 0 {
        assert(ts1 =~= ts2);
    } else if ts1.len() == 0 {
        lemma_records_split(ts2);
        assert(w[0] == ']');
        assert(record_text(ts2[0])[0] == 'T');
    } else if ts2.len() == 0 {
        lemma_records_split(ts1);
        assert((records_text(ts2) + "]"@)[0] == ']');
        assert(record_text(ts1[0])[0] == 'T');
    } else {
        lemma_records_split(ts1);
        lemma_records_split(ts2);
        let r1 = if ts1.len() == 1 {
            "]"@
        } else {
            ", "@ + (records_text(ts1.drop_first()) + "]"@)
        };
        let r2 = if ts2.len() == 1 {
            "]"@
        } else {
            ", "@ + (records_text(ts2.drop_first()) + "]"@)
        };
        lemma_record_injective(ts1[0], r1, ts2[0], r2);
        if ts1.len() == 1 && ts2.len() > 1 {
            assert(r1[0] != r2[0]);
        } else if ts1.len() > 1 && ts2.len() == 1 {
            assert(r1[0] != r2[0]);
        } else if ts1.len() > 1 {
            lemma_strip_prefix(
                ", "@,
                records_text(ts1.drop_first()) + "]"@,
                records_text(ts2.drop_first()) + "]"@,
            );
            lemma_records_injective(ts1.drop_first(), ts2.drop_first());
            assert(ts1 =~= seq![ts1[0]] + ts1.drop_first());
            assert(ts2 =~= seq![ts2[0]] + ts2.drop_first());
        } else {
            assert(ts1 =~= seq![ts1[0]]);
            assert(ts2 =~= seq![ts2[0]]);
        }
    }
}

/// Distinct lists of transactions have distinct canonical texts.
pub proof fn lemma_list_text_injective(ts1: Seq<TransactionView>, ts2: Seq<TransactionView>)
    requires
        list_text(ts1) == list_text(ts2),
    ensures
        ts1 == ts2,
{
    assert(list_text(ts1) =~= "["@ + (records_text(ts1) + "]"@));
    assert(list_text(ts2) =~= "["@ + (records_text(ts2) + "]"@));
    lemma_strip_prefix("["@, records_text(ts1) + "]"@, records_text(ts2) + "]"@);
    lemma_records_injective(ts1, ts2);
}

/// Giving a block after the first another predecessor hash makes a valid
/// chain invalid.
pub proof fn lemma_relinked_block_invalidates(blocks: Seq<Block>, i: int, altered: Block)
    requires
        chain_valid(blocks),
        1 <= i < blocks.len(),
        altered.previous_hash@ != blocks[i].previous_hash@,
    ensures
        !chain_valid(blocks.update(i, altered)),
{
    let c = blocks.update(i, altered);
    assert(c[i - 1] == blocks[i - 1]);
    assert(blocks[i].previous_hash@ == blocks[i - 1].hash@);
    assert(c[i] == altered);
}

/// A block after the first that is altered but keeps its stored hash leaves
/// a valid chain valid only if the SHA-256 digests of its old and new header
/// bytes are equal.
pub proof fn lemma_altered_block_needs_equal_digest(blocks: Seq<Block>, i: int, altered: Block)
    requires
        chain_valid(blocks),
        1 <= i < blocks.len(),
        altered.hash@ == blocks[i].hash@,
    ensures
        chain_valid(blocks.update(i, altered)) ==> sha256_of(header_bytes(altered)) == sha256_of(
            header_bytes(blocks[i]),
        ),
{
    let c = blocks.update(i, altered);
    if chain_valid(c) {
        assert(c[i] == altered);
        assert(altered.hash@ == altered.computed_hash());
        assert(blocks[i].hash@ == blocks[i].computed_hash());
        lemma_hex_injective(sha256_of(header_bytes(altered)), sha256_of(header_bytes(blocks[i])));
    }
}

/// Changing only the nonce of a block after the first, without mining it
/// again, leaves a valid chain valid only through a SHA-256 collision: two
/// different byte sequences with one digest.
pub proof fn lemma_renonced_block_needs_collision(blocks: Seq<Block>, i: int, altered: Block)
    requires
        chain_valid(blocks),
        1 <= i < blocks.len(),
        altered.index == blocks[i].index,
        altered.timestamp == blocks[i].timestamp,
        altered.transactions == blocks[i].transactions,
        altered.previous_hash == blocks[i].previous_hash,
        altered.hash == blocks[i].hash,
        altered.nonce != blocks[i].nonce,
    ensures
        chain_valid(blocks.update(i, altered)) ==> sha256_of(header_bytes(altered)) == sha256_of(
            header_bytes(blocks[i]),
        ),
        header_bytes(altered) != header_bytes(blocks[i]),
{
    lemma_altered_block_needs_equal_digest(blocks, i, altered);
    let b = blocks[i];
    let p = decimal_text(b.index as nat) + crate::text::signed_decimal_text(b.timestamp as int)
        + list_text(views_of(b.transactions@)) + b.previous_hash@;
    assert(header_of(altered) == p + decimal_text(altered.nonce as nat));
    assert(header_of(b) == p + decimal_text(b.nonce as nat));
    if header_bytes(altered) == header_bytes(b) {
        lemma_encode_injective(header_of(altered), header_of(b));
        assert(header_of(altered).subrange(p.len() as int, header_of(altered).len() as int)
            =~= decimal_text(altered.nonce as nat));
        assert(header_of(b).subrange(p.len() as int, header_of(b).len() as int) =~= decimal_text(
            b.nonce as nat,
        ));
        lemma_decimal_injective(altered.nonce as nat, b.nonce as nat);
    }
}

/// Changing only the transactions of a block after the first, without mining
/// it again, leaves a valid chain valid only through a SHA-256 collision.
pub proof fn lemma_rewritten_block_needs_collision(blocks: Seq<Block>, i: int, altered: Block)
    requires
        chain_valid(blocks),
        1 <= i < blocks.len(),
        altered.index == blocks[i].index,
        altered.timestamp == blocks[i].timestamp,
        altered.previous_hash == blocks[i].previous_hash,
        altered.hash == blocks[i].hash,
        altered.nonce == blocks[i].nonce,
        views_of(altered.transactions@) != views_of(blocks[i].transactions@),
    ensures
        chain_valid(blocks.update(i, altered)) ==> sha256_of(header_bytes(altered)) == sha256_of(
            header_bytes(blocks[i]),
        ),
        header_bytes(altered) != header_bytes(blocks[i]),
{
    lemma_altered_block_needs_equal_digest(blocks, i, altered);
    let b = blocks[i];
    let p = decimal_text(b.index as nat) + crate::text::signed_decimal_text(b.timestamp as int);
    let s = b.previous_hash@ + decimal_text(b.nonce as nat);
    let la = list_text(views_of(altered.transactions@));
    let lb = list_text(views_of(b.transactions@));
    assert(header_of(altered) =~= p + la + s);
    assert(header_of(b) =~= p + lb + s);
    if header_bytes(altered) == header_bytes(b) {
        lemma_encode_injective(header_of(altered), header_of(b));
        assert(la.len() == lb.len());
        assert((p + la + s).subrange(p.len() as int, (p.len() + la.len()) as int) =~= la);
        assert((p + lb + s).subrange(p.len() as int, (p.len() + lb.len()) as int) =~= lb);
        lemma_list_text_injective(views_of(altered.transactions@), views_of(b.transactions@));
    }
}

} // verus!
