use crate::amount::{amount_of_parts, Amount};
use crate::ledger::{Transaction, TransactionKind, TransactionStatus};
use rust_decimal::Decimal;
use std::str::FromStr;
use vstd::prelude::*;
use vstd::string::*;

verus! {

/// Why a row could not be turned into an event.
#[derive(Clone, Copy, Debug, PartialEq, Eq, Structural)]
pub enum RecordError {
    MissingType,
    UnknownType,
    MissingAmount,
    InvalidAmount,
    MissingClient,
    InvalidClient,
    MissingTx,
    InvalidTx,
}

/// What `str::trim` makes of a field.
pub uninterp spec fn trimmed(s: Seq<char>) -> Seq<char>;

/// Mantissa and scale of the decimal that `Decimal::from_str` reads from `s`.
pub uninterp spec fn decimal_parts(s: Seq<char>) -> Option<(i128, u32)>;

/// Relies on `str::trim`: the field without its leading and trailing whitespace.
#[verifier::external_body]
fn trim_field<'a>(s: &'a str) -> (r: &'a str)
    ensures
        r@ == trimmed(s@),
{
    s.trim()
}

/// Relies on `rust_decimal::Decimal::from_str`, which parses a decimal number;
/// its mantissa and scale are handed back.
#[verifier::external_body]
fn parse_decimal(s: &str) -> (r: Option<(i128, u32)>)
    ensures
        r == decimal_parts(s@),
{
    match Decimal::from_str(s) {
        Ok(d) => Some((d.mantissa(), d.scale())),
        Err(_) => None,
    }
}

/// The character code of `c` with ASCII upper case folded to lower case.
pub open spec fn ascii_folded(c: char) -> u32 {
    if 'A' <= c && c <= 'Z' {
        (c as u32 + 32) as u32
    } else {
        c as u32
    }
}

/// Whether `a` and `b` are equal up to ASCII case.
pub open spec fn same_ignoring_ascii_case(a: Seq<char>, b: Seq<char>) -> bool {
    a.len() == b.len() && forall|i: int| 0 <= i < a.len() ==> ascii_folded(a[i]) == ascii_folded(b[i])
}

pub open spec fn is_digit(c: char) -> bool {
    '0' <= c && c <= '9'
}

/// The number that a string of decimal digits spells.
pub open spec fn digits_value(s: Seq<char>) -> int
    decreases s.len(),
{
    if s.len() == 0 {
        0
    } else {
        10 * digits_value(s.drop_last()) + (s.last() as u32 - '0' as u32)
    }
}

/// The digits of an unsigned number: an optional leading `+` dropped.
pub open spec fn unsigned_digits(s: Seq<char>) -> Seq<char> {
    if s.len() > 0 && s[0] == '+' {
        s.drop_first()
    } else {
        s
    }
}

/// The unsigned number that `s` spells, at most `max`.
pub open spec fn unsigned_of(s: Seq<char>, max: int) -> Option<int> {
    let d = unsigned_digits(s);
    if d.len() > 0 && (forall|i: int| 0 <= i < d.len() ==> is_digit(#[trigger] d[i]))
        && digits_value(d) <= max {
        Some(digits_value(d))
    } else {
        None
    }
}

/// The amount that a field holds, after trimming.
pub open spec fn amount_field(s: Seq<char>) -> Option<Amount> {
    match decimal_parts(trimmed(s)) {
        Some((m, sc)) => amount_of_parts(m as int, sc as nat),
        None => None,
    }
}

proof fn lemma_digits_value_grows(d: Seq<char>, j: int)
    requires
        0 <= j <= d.len(),
        forall|i: int| 0 <= i < d.len() ==> is_digit(#[trigger] d[i]),
    ensures
        0 <= digits_value(d.take(j)) <= digits_value(d),
    decreases d.len(),
{
    if d.len() > 0 {
        let p = d.drop_last();
        assert forall|i: int| 0 <= i < p.len() implies is_digit(#[trigger] p[i]) by {
            assert(p[i] == d[i]);
        }
        if j < d.len() {
            lemma_digits_value_grows(p, j);
            assert(p.take(j) =~= d.take(j));
        } else {
            lemma_digits_value_grows(p, 0);
            assert(d.take(j) =~= d);
        }
        assert(is_digit(d.last()));
    } else {
        assert(d.take(j) =~= d);
    }
}

/// Compares two strings up to ASCII case, as `str::eq_ignore_ascii_case` does.
pub fn eq_ignore_ascii_case(a: &str, b: &str) -> (r: bool)
    ensures
        r == same_ignoring_ascii_case(a@, b@),
{
    let n = a.unicode_len();
    if n != b.unicode_len() {
        return false;
    }
    let mut i: usize = 0;
    while i < n
        invariant
            n == a@.len(),
            n == b@.len(),
            i <= n,
            forall|j: int| 0 <= j < i ==> ascii_folded(a@[j]) == ascii_folded(b@[j]),
        decreases n - i,
    {
        let x = a.get_char(i);
        let y = b.get_char(i);
        let fx: u32 = if 'A' <= x && x <= 'Z' {
            x as u32 + 32
        } else {
            x as u32
        };
        let fy: u32 = if 'A' <= y && y <= 'Z' {
            y as u32 + 32
        } else {
            y as u32
        };
        if fx != fy {
            return false;
        }
        i = i + 1;
    }
    true
}

/// Reads an unsigned decimal number no larger than `max`, as `str::parse`
/// does for an unsigned integer type whose largest value is `max`.
pub fn parse_unsigned(s: &str, max: u32) -> (r: Option<u32>)
    ensures
        r == (match unsigned_of(s@, max as int) {
            Some(v) => Some(v as u32),
            None => None::<u32>,
        }),
        r is Some ==> r->Some_0 as int == unsigned_of(s@, max as int)->Some_0,
{
    let n = s.unicode_len();
    let start: usize = if n > 0 && s.get_char(0) == '+' {
        1
    } else {
        0
    };
    let ghost d = unsigned_digits(s@);
    assert(d =~= s@.subrange(start as int, n as int));
    if start >= n {
        return None;
    }
    let mut acc: u64 = 0;
    let mut i: usize = start;
    while i < n
        invariant
            n == s@.len(),
            start <= i <= n,
            d == unsigned_digits(s@),
            d =~= s@.subrange(start as int, n as int),
            forall|j: int| 0 <= j < i - start ==> is_digit(#[trigger] d[j]),
            acc as int == digits_value(d.take(i - start)),
            acc <= max,
        decreases n - i,
    {
        let c = s.get_char(i);
        if !('0' <= c && c <= '9') {
            assert(d[i - start] == c);
            assert(!is_digit(d[i - start]));
            return None;
        }
        let next: u64 = acc * 10 + (c as u32 - '0' as u32) as u64;
        proof {
            let t = d.take(i - start + 1);
            assert(t.drop_last() =~= d.take(i - start));
            assert(d[i - start] == c);
            assert(t.last() == c);
            assert(digits_value(t) == next as int);
        }
        if next > max as u64 {
            proof {
                if forall|j: int| 0 <= j < d.len() ==> is_digit(#[trigger] d[j]) {
                    lemma_digits_value_grows(d, i - start + 1);
                }
            }
            return None;
        }
        acc = next;
        i = i + 1;
    }
    assert(d.take(n - start) =~= d);
    proof {
        lemma_digits_value_grows(d, 0);
    }
    Some(acc as u32)
}

/// The event that a row of fields (type, client, tx, amount) describes.
pub open spec fn record_of(fields: Seq<Seq<char>>) -> Result<Transaction, RecordError> {
    if fields.len() < 1 {
        Err(RecordError::MissingType)
    } else {
        let k = trimmed(fields[0]);
        let money = same_ignoring_ascii_case(k, "deposit"@) || same_ignoring_ascii_case(
            k,
            "withdrawal"@,
        );
        let kind: Result<TransactionKind, RecordError> = if money {
            if fields.len() < 4 {
                Err(RecordError::MissingAmount)
            } else {
                match amount_field(fields[3]) {
                    None => Err(RecordError::InvalidAmount),
                    Some(amount) => if same_ignoring_ascii_case(k, "deposit"@) {
                        Ok(TransactionKind::Deposit { amount })
                    } else {
                        Ok(TransactionKind::Withdrawal { amount })
                    },
                }
            }
        } else if same_ignoring_ascii_case(k, "dispute"@) {
            Ok(TransactionKind::Dispute)
        } else if same_ignoring_ascii_case(k, "resolve"@) {
            Ok(TransactionKind::Resolve)
        } else if same_ignoring_ascii_case(k, "chargeback"@) {
            Ok(TransactionKind::Chargeback)
        } else {
            Err(RecordError::UnknownType)
        };
        match kind {
            Err(e) => Err(e),
            Ok(kind) => event_of(kind, fields),
        }
    }
}

/// The event of kind `kind` whose client and tx ids stand in `fields`.
pub open spec fn event_of(kind: TransactionKind, fields: Seq<Seq<char>>) -> Result<
    Transaction,
    RecordError,
> {
    if fields.len() < 2 {
        Err(RecordError::MissingClient)
    } else if unsigned_of(trimmed(fields[1]), u16::MAX as int) is None {
        Err(RecordError::InvalidClient)
    } else if fields.len() < 3 {
        Err(RecordError::MissingTx)
    } else if unsigned_of(trimmed(fields[2]), u32::MAX as int) is None {
        Err(RecordError::InvalidTx)
    } else {
        let client = unsigned_of(trimmed(fields[1]), u16::MAX as int)->Some_0;
        let tx = unsigned_of(trimmed(fields[2]), u32::MAX as int)->Some_0;
        Ok(
            (Transaction {
                kind,
                client: client as u16,
                tx: tx as u32,
                status: TransactionStatus::Started,
            }),
        )
    }
}

fn amount_from_field(s: &str) -> (r: Option<Amount>)
    ensures
        r == amount_field(s@),
{
    match parse_decimal(trim_field(s)) {
        Some((m, sc)) => Amount::from_decimal_parts(m, sc),
        None => None,
    }
}

/// Reads one row of fields (type, client, tx, amount) into an event.
///
/// Each field is trimmed; the type is matched up to ASCII case; the amount is
/// read only for deposits and withdrawals.
pub fn parse_record(fields: &Vec<String>) -> (r: Result<Transaction, RecordError>)
    ensures
        r == record_of(fields@.map_values(|f: String| f@)),
{
    let ghost view = fields@.map_values(|f: String| f@);
    assert(view.len() == fields@.len());
    assert(forall|i: int| 0 <= i < fields@.len() ==> view[i] == (#[trigger] fields@[i])@);
    if fields.len() < 1 {
        return Err(RecordError::MissingType);
    }
    let k = trim_field(fields[0].as_str());
    let is_deposit = eq_ignore_ascii_case(k, "deposit");
    let is_withdrawal = eq_ignore_ascii_case(k, "withdrawal");
    let kind = if is_deposit || is_withdrawal {
        if fields.len() < 4 {
            return Err(RecordError::MissingAmount);
        }
        let amount = match amount_from_field(fields[3].as_str()) {
            Some(a) => a,
            None => return Err(RecordError::InvalidAmount),
        };
        if is_deposit {
            TransactionKind::Deposit { amount }
        } else {
            TransactionKind::Withdrawal { amount }
        }
    } else if eq_ignore_ascii_case(k, "dispute") {
        TransactionKind::Dispute
    } else if eq_ignore_ascii_case(k, "resolve") {
        TransactionKind::Resolve
    } else if eq_ignore_ascii_case(k, "chargeback") {
        TransactionKind::Chargeback
    } else {
        return Err(RecordError::UnknownType);
    };
    if fields.len() < 2 {
        return Err(RecordError::MissingClient);
    }
    let client_field = trim_field(fields[1].as_str());
    let client = match parse_unsigned(client_field, 65535) {
        Some(c) => c as u16,
        None => return Err(RecordError::InvalidClient),
    };
    if fields.len() < 3 {
        return Err(RecordError::MissingTx);
    }
    let tx_field = trim_field(fields[2].as_str());
    let tx = match parse_unsigned(tx_field, u32::MAX) {
        Some(t) => t,
        None => return Err(RecordError::InvalidTx),
    };
    Ok(Transaction::new(kind, client, tx))
}

} // verus!
