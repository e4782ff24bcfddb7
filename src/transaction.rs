//! Transfers of value between addresses, and their canonical texts.
use vstd::prelude::*;
use crate::digest::{sha256, sha256_of};
use crate::text::{amount_text, push_amount};
use vstd::utf8::encode_utf8;

verus! {

/// A transfer of `amount` base units from `sender` to `receiver`, paying
/// `fee` base units to the miner that confirms it.
#[derive(Debug, Clone, PartialEq, Eq)]
pub struct Transaction {
    pub sender: String,
    pub receiver: String,
    pub amount: u64,
    pub fee: u64,
    /// Hexadecimal signature text; stored, never checked by the ledger.
    pub signature: String,
}

/// The mathematical value of a `Transaction`.
pub struct TransactionView {
    pub sender: Seq<char>,
    pub receiver: Seq<char>,
    pub amount: u64,
    pub fee: u64,
    pub signature: Seq<char>,
}

impl View for Transaction {
    type V = TransactionView;

    open spec fn view(&self) -> TransactionView {
        TransactionView {
            sender: self.sender@,
            receiver: self.receiver@,
            amount: self.amount,
            fee: self.fee,
            signature: self.signature@,
        }
    }
}

/// The views of a sequence of transactions.
pub open spec fn views_of(txs: Seq<Transaction>) -> Seq<TransactionView> {
    txs.map_values(|t: Transaction| t@)
}

/// The text that a transaction's digest is taken over: sender, receiver,
/// amount and fee, concatenated; the signature is left out.
pub open spec fn digest_text(t: TransactionView) -> Seq<char> {
    t.sender + t.receiver + amount_text(t.amount as nat, false) + amount_text(t.fee as nat, false)
}

/// A character as it stands between quotes: `"` and `\` are preceded by a
/// backslash, any other character stands as it is.
pub open spec fn escaped_char(c: char) -> Seq<char> {
    if c == '"' {
        seq!['\\', '"']
    } else if c == '\\' {
        seq!['\\', '\\']
    } else {
        seq![c]
    }
}

/// A text with each character escaped (see `escaped_char`).
pub open spec fn escaped(s: Seq<char>) -> Seq<char>
    decreases s.len(),
{
    if s.len() == 0 {
        seq![]
    } else {
        escaped(s.drop_last()) + escaped_char(s.last())
    }
}

/// An escaped text followed by its closing quote.
pub open spec fn quoted(s: Seq<char>) -> Seq<char> {
    escaped(s) + seq!['"']
}

/// The canonical text of one transaction inside a block, fields in the order
/// sender, receiver, amount, fee, signature, texts quoted and escaped.
pub open spec fn record_text(t: TransactionView) -> Seq<char> {
    "Transaction { sender: \""@ + (quoted(t.sender) + (", receiver: \""@ + (quoted(t.receiver) + (
    ", amount: "@ + (amount_text(t.amount as nat, true) + (", fee: "@ + (amount_text(
        t.fee as nat,
        true,
    ) + (", signature: \""@ + (quoted(t.signature) + " }"@)))))))))
}

/// The records of a list of transactions, separated by `, `.
pub open spec fn records_text(ts: Seq<TransactionView>) -> Seq<char>
    decreases ts.len(),
{
    if ts.len() == 0 {
        seq![]
    } else if ts.len() == 1 {
        record_text(ts[0])
    } else {
        records_text(ts.drop_last()) + ", "@ + record_text(ts.last())
    }
}

/// The canonical text of a list of transactions, in brackets.
pub open spec fn list_text(ts: Seq<TransactionView>) -> Seq<char> {
    "["@ + records_text(ts) + "]"@
}

impl Transaction {
    /// A transaction with an empty signature. Nothing is validated.
    pub fn new(sender: &str, receiver: &str, amount: u64, fee: u64) -> (r: Self)
        ensures
            r@ == (TransactionView {
                sender: sender@,
                receiver: receiver@,
                amount,
                fee,
                signature: Seq::empty(),
            }),
    {
        Transaction {
            sender: sender.to_owned(),
            receiver: receiver.to_owned(),
            amount,
            fee,
            signature: String::new(),
        }
    }

    /// The text that `hash` digests.
    pub fn digest_input(&self) -> (r: String)
        ensures
            r@ == digest_text(self@),
    {
        let mut out = String::new();
        out.append(self.sender.as_str());
        out.append(self.receiver.as_str());
        push_amount(&mut out, self.amount, false);
        push_amount(&mut out, self.fee, false);
        assert(out@ =~= digest_text(self@));
        out
    }

    /// SHA-256 over the UTF-8 bytes of `digest_input`: the payload that a
    /// sender signs.
    pub fn hash(&self) -> (r: Vec<u8>)
        ensures
            r@ == sha256_of(encode_utf8(digest_text(self@))),
            r@.len() == 32,
    {
        let data = self.digest_input();
        sha256(data.as_str().as_bytes())
    }

    /// Appends the canonical record text of this transaction.
    pub fn push_record(&self, out: &mut String)
        ensures
            final(out)@ == old(out)@ + record_text(self@),
    {
        proof {
            reveal_strlit("\"");
        }
        out.append("Transaction { sender: \"");
        push_escaped(out, self.sender.as_str());
        out.append("\"");
        out.append(", receiver: \"");
        push_escaped(out, self.receiver.as_str());
        out.append("\"");
        out.append(", amount: ");
        push_amount(out, self.amount, true);
        out.append(", fee: ");
        push_amount(out, self.fee, true);
        out.append(", signature: \"");
        push_escaped(out, self.signature.as_str());
        out.append("\"");
        out.append(" }");
        assert(out@ =~= old(out)@ + record_text(self@));
    }
}

/// Appends `s` with `"` and `\` escaped (see `escaped`).
pub fn push_escaped(out: &mut String, s: &str)
    ensures
        final(out)@ == old(out)@ + escaped(s@),
{
    let n = s.unicode_len();
    let mut i: usize = 0;
    while i < n
        invariant
            n == s@.len(),
            i <= n,
            out@ == old(out)@ + escaped(s@.subrange(0, i as int)),
        decreases n - i,
    {
        let c = s.get_char(i);
        let ghost before = out@;
        proof {
            reveal_strlit("\\\"");
            reveal_strlit("\\\\");
        }
        if c == '"' {
            out.append("\\\"");
            assert(out@ =~= before + escaped_char(c));
        } else if c == '\\' {
            out.append("\\\\");
            assert(out@ =~= before + escaped_char(c));
        } else {
            let piece = s.substring_char(i, i + 1);
            assert(piece@ =~= seq![c]);
            out.append(piece);
            assert(out@ =~= before + escaped_char(c));
        }
        proof {
            let t = s@.subrange(0, i + 1);
            assert(t.drop_last() =~= s@.subrange(0, i as int));
            assert(t.last() == c);
            assert(out@ =~= old(out)@ + escaped(t));
        }
        i = i + 1;
    }
    assert(s@.subrange(0, n as int) =~= s@);
}

/// Appends the canonical text of a list of transactions.
pub fn push_list(txs: &Vec<Transaction>, out: &mut String)
    ensures
        final(out)@ == old(out)@ + list_text(views_of(txs@)),
{
    out.append("[");
    let mut i: usize = 0;
    while i < txs.len()
        invariant
            0 <= i <= txs@.len(),
            out@ == old(out)@ + "["@ + records_text(views_of(txs@.subrange(0, i as int))),
        decreases txs@.len() - i,
    {
        let ghost before = out@;
        if i > 0 {
            out.append(", ");
        }
        txs[i].push_record(out);
        proof {
            let s = views_of(txs@.subrange(0, i + 1));
            assert(s.drop_last() =~= views_of(txs@.subrange(0, i as int)));
            assert(s.last() == txs@[i as int]@);
            if i == 0 {
                assert(records_text(views_of(txs@.subrange(0, 0))) =~= Seq::<char>::empty());
            }
        }
        i = i + 1;
    }
    out.append("]");
    assert(txs@.subrange(0, txs@.len() as int) =~= txs@);
    assert(out@ =~= old(out)@ + list_text(views_of(txs@)));
}

} // verus!
