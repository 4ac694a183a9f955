//! The canonical text of a list of transactions, from which the list can
//! be read back.
//!
//! The text is the number of transactions and a colon, then one item per
//! transaction: the sender, the recipient, the amount as a signed decimal
//! numeral, and a semicolon. A name is written as its JSON string literal
//! behind the length of that literal. The library does not look into the
//! literal: the length before it tells where it ends, and that it stands
//! for the name is found by reading it back. A name whose literal does not
//! read back is written as it is, behind a `!` and its own length.

use crate::json::{checked_literal, lemma_literal_tells_names_apart, literal_of};
use crate::text::{
    decimal, framed, lemma_cancel_left, lemma_decimal_digits, lemma_decimal_splits,
    lemma_framed_splits, lemma_signed_decimal_splits, push_decimal, push_framed,
    push_signed_decimal, signed_decimal,
};
use crate::transaction::{Transaction, TransactionView};
use vstd::prelude::*;

verus! {

/// A name in the text: its JSON string literal behind the length of the
/// literal or, where no literal reads back as the name, a `!` and the name
/// behind its own length.
pub open spec fn name_text(name: Seq<char>) -> Seq<char> {
    match literal_of(name) {
        Some(literal) => framed(literal),
        None => seq!['!'] + framed(name),
    }
}

/// One transaction in the text: sender, recipient, amount, semicolon.
pub open spec fn transaction_text(t: TransactionView) -> Seq<char> {
    name_text(t.from) + name_text(t.to) + signed_decimal(t.amount).push(';')
}

/// The items of `txs`, one after the other.
pub open spec fn items_text(txs: Seq<TransactionView>) -> Seq<char>
    decreases txs.len(),
{
    if txs.len() == 0 {
        Seq::empty()
    } else {
        items_text(txs.drop_last()) + transaction_text(txs.last())
    }
}

/// The canonical text of `txs`: their number, a colon, and their items.
pub open spec fn transactions_text(txs: Seq<TransactionView>) -> Seq<char> {
    decimal(txs.len()).push(':') + items_text(txs)
}

/// A name can be read back from the text, whatever follows.
pub proof fn lemma_name_text_splits(a: Seq<char>, x: Seq<char>, b: Seq<char>, y: Seq<char>)
    requires
        name_text(a) + x == name_text(b) + y,
    ensures
        a == b,
        x == y,
{
    match (literal_of(a), literal_of(b)) {
        (Some(p), Some(q)) => {
            lemma_framed_splits(p, x, q, y);
            lemma_literal_tells_names_apart(a, b);
        },
        (Some(p), None) => {
            lemma_decimal_digits(p.len());
            assert((name_text(a) + x)[0] == decimal(p.len())[0]);
            assert((name_text(b) + y)[0] == '!');
        },
        (None, Some(q)) => {
            lemma_decimal_digits(q.len());
            assert((name_text(b) + y)[0] == decimal(q.len())[0]);
            assert((name_text(a) + x)[0] == '!');
        },
        (None, None) => {
            assert(name_text(a) + x =~= seq!['!'] + (framed(a) + x));
            assert(name_text(b) + y =~= seq!['!'] + (framed(b) + y));
            lemma_cancel_left(seq!['!'], framed(a) + x, framed(b) + y);
            lemma_framed_splits(a, x, b, y);
        },
    }
}

/// A transaction can be read back from the text, whatever follows.
pub proof fn lemma_transaction_text_splits(
    a: TransactionView,
    x: Seq<char>,
    b: TransactionView,
    y: Seq<char>,
)
    requires
        transaction_text(a) + x == transaction_text(b) + y,
    ensures
        a == b,
        x == y,
{
    let a_amount = signed_decimal(a.amount).push(';');
    let b_amount = signed_decimal(b.amount).push(';');
    lemma_four_parts(name_text(a.from), name_text(a.to), a_amount, x);
    lemma_four_parts(name_text(b.from), name_text(b.to), b_amount, y);
    lemma_name_text_splits(
        a.from,
        name_text(a.to) + (a_amount + x),
        b.from,
        name_text(b.to) + (b_amount + y),
    );
    lemma_name_text_splits(a.to, a_amount + x, b.to, b_amount + y);
    lemma_signed_decimal_splits(a.amount, x, b.amount, y, ';');
}

/// Four texts in a row, read from the left or from the right.
proof fn lemma_four_parts(a: Seq<char>, b: Seq<char>, c: Seq<char>, d: Seq<char>)
    ensures
        a + b + c + d == a + (b + (c + d)),
{
    assert(a + b + c + d =~= a + (b + (c + d)));
}

/// The items of a list are the item of its first transaction and the
/// items of the rest.
pub proof fn lemma_items_text_first(txs: Seq<TransactionView>)
    requires
        txs.len() > 0,
    ensures
        items_text(txs) == transaction_text(txs.first()) + items_text(txs.drop_first()),
    decreases txs.len(),
{
    if txs.len() == 1 {
        assert(txs.drop_last() =~= Seq::<TransactionView>::empty());
        assert(txs.drop_first() =~= Seq::<TransactionView>::empty());
        assert(items_text(txs) =~= transaction_text(txs.first()) + items_text(txs.drop_first()));
    } else {
        lemma_items_text_first(txs.drop_last());
        assert(txs.drop_last().drop_first() =~= txs.drop_first().drop_last());
        assert(items_text(txs) =~= transaction_text(txs.first()) + items_text(txs.drop_first()));
    }
}

/// Two lists of one length with the same items are the same list.
pub proof fn lemma_items_text_tells_lists_apart(a: Seq<TransactionView>, b: Seq<TransactionView>)
    requires
        a.len() == b.len(),
        items_text(a) == items_text(b),
    ensures
        a == b,
    decreases a.len(),
{
    if a.len() > 0 {
        lemma_items_text_first(a);
        lemma_items_text_first(b);
        lemma_transaction_text_splits(
            a.first(),
            items_text(a.drop_first()),
            b.first(),
            items_text(b.drop_first()),
        );
        lemma_items_text_tells_lists_apart(a.drop_first(), b.drop_first());
        assert forall|k: int| 0 <= k < a.len() implies a[k] == b[k] by {
            if k > 0 {
                assert(a[k] == a.drop_first()[k - 1]);
                assert(b[k] == b.drop_first()[k - 1]);
            }
        }
    }
    assert(a =~= b);
}

/// Two lists with the same canonical text are the same list.
pub proof fn lemma_transactions_text_tells_lists_apart(
    a: Seq<TransactionView>,
    b: Seq<TransactionView>,
)
    requires
        transactions_text(a) == transactions_text(b),
    ensures
        a == b,
{
    lemma_decimal_splits(a.len(), items_text(a), b.len(), items_text(b));
    lemma_items_text_tells_lists_apart(a, b);
}

/// Appends a name to the text.
fn push_name_text(out: &mut String, name: &str)
    ensures
        final(out)@ == old(out)@ + name_text(name@),
{
    match checked_literal(name) {
        Some(literal) => {
            push_framed(out, literal.as_str());
        },
        None => {
            out.push('!');
            push_framed(out, name);
            assert(out@ =~= old(out)@ + (seq!['!'] + framed(name@)));
        },
    }
}

/// Appends the item of one transaction to the text.
pub fn push_transaction_text(out: &mut String, t: &Transaction)
    ensures
        final(out)@ == old(out)@ + transaction_text(t@),
{
    push_name_text(out, t.from.as_str());
    push_name_text(out, t.to.as_str());
    push_signed_decimal(out, t.amount);
    out.push(';');
    assert(out@ =~= old(out)@ + transaction_text(t@));
}

/// Writes the canonical text of a list of transactions.
pub fn transactions_to_text(txs: &Vec<Transaction>) -> (text: String)
    ensures
        text@ == transactions_text(txs.deep_view()),
{
    let mut text = String::new();
    push_decimal(&mut text, txs.len() as u64);
    text.push(':');
    let mut i: usize = 0;
    while i < txs.len()
        invariant
            i <= txs.len(),
            text@ == decimal(txs.len() as nat).push(':') + items_text(txs.deep_view().take(i as int)),
        decreases txs.len() - i,
    {
        push_transaction_text(&mut text, &txs[i]);
        proof {
            let written = txs.deep_view().take(i as int);
            let next = txs.deep_view().take(i + 1);
            assert(next.drop_last() =~= written);
            assert(next.last() == txs[i as int]@);
            assert(text@ =~= decimal(txs.len() as nat).push(':') + (items_text(written)
                + transaction_text(next.last())));
        }
        i = i + 1;
    }
    assert(txs.deep_view().take(i as int) =~= txs.deep_view());
    text
}

} // verus!
