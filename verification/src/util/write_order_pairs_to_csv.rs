use vstd::prelude::*;
use crate::direction::Direction;
use crate::execution::Execution;
use crate::order::{text_of, OcaGroup, Order, OrderKind, OrderStatusView, OrderView};
use crate::timestamp::{utc_datetime_text, Timestamp};
use crate::util::get_order_pairs::{OrderPair, OrderPairView};

verus! {

/// The names of the columns of a report of order pairs.
pub open spec fn order_pair_columns() -> Seq<Seq<char>> {
    seq![
        "EntryOrderId"@,
        "EntryOrderKind"@,
        "EntryOrderActiveUntil"@,
        "EntryOrderActiveAfter"@,
        "EntryOrderDirection"@,
        "EntryOrderOCA"@,
        "EntrySymbolId"@,
        "EntryExecutionPrice"@,
        "EntryExecutionDatetime"@,
        "EntryExecutionQuantity"@,
        "ExitOrderId"@,
        "ExitOrderKind"@,
        "ExitOrderActiveUntil"@,
        "ExitOrderActiveAfter"@,
        "ExitOrderDirection"@,
        "ExitOrderOCA"@,
        "ExitSymbolId"@,
        "ExitExecutionPrice"@,
        "ExitExecutionDatetime"@,
        "ExitExecutionQuantity"@,
    ]
}

/// The characters of each text.
pub open spec fn texts(columns: Seq<String>) -> Seq<Seq<char>> {
    Seq::new(columns.len(), |i: int| columns[i]@)
}

/// The header of a report of order pairs.
pub fn order_pair_header() -> (r: Vec<String>)
    ensures
        texts(r@) == order_pair_columns(),
{
    let mut header: Vec<String> = Vec::new();
    header.push("EntryOrderId".to_owned());
    header.push("EntryOrderKind".to_owned());
    header.push("EntryOrderActiveUntil".to_owned());
    header.push("EntryOrderActiveAfter".to_owned());
    header.push("EntryOrderDirection".to_owned());
    header.push("EntryOrderOCA".to_owned());
    header.push("EntrySymbolId".to_owned());
    header.push("EntryExecutionPrice".to_owned());
    header.push("EntryExecutionDatetime".to_owned());
    header.push("EntryExecutionQuantity".to_owned());
    header.push("ExitOrderId".to_owned());
    header.push("ExitOrderKind".to_owned());
    header.push("ExitOrderActiveUntil".to_owned());
    header.push("ExitOrderActiveAfter".to_owned());
    header.push("ExitOrderDirection".to_owned());
    header.push("ExitOrderOCA".to_owned());
    header.push("ExitSymbolId".to_owned());
    header.push("ExitExecutionPrice".to_owned());
    header.push("ExitExecutionDatetime".to_owned());
    header.push("ExitExecutionQuantity".to_owned());
    assert(texts(header@) =~= order_pair_columns());
    header
}

/// The short name of a kind of order.
pub open spec fn order_kind_text(kind: OrderKind) -> Seq<char> {
    match kind {
        OrderKind::MarketOrder => "MKT"@,
        OrderKind::LimitOrder(_) => "LMT"@,
        OrderKind::StopOrder(_) => "STP"@,
    }
}

pub fn order_kind_to_str(kind: &OrderKind) -> (r: String)
    ensures
        r@ == order_kind_text(*kind),
{
    match *kind {
        OrderKind::MarketOrder => "MKT".to_owned(),
        OrderKind::LimitOrder(_) => "LMT".to_owned(),
        OrderKind::StopOrder(_) => "STP".to_owned(),
    }
}

/// The name of a direction.
pub open spec fn direction_text(direction: Direction) -> Seq<char> {
    match direction {
        Direction::Long => "LONG"@,
        Direction::Short => "SHORT"@,
    }
}

pub fn direction_to_str(direction: &Direction) -> (r: String)
    ensures
        r@ == direction_text(*direction),
{
    match *direction {
        Direction::Long => "LONG".to_owned(),
        Direction::Short => "SHORT".to_owned(),
    }
}

/// The text of a point in time: the date and time as `chrono` prints it,
/// nothing where it has no date for the instant.
pub open spec fn datetime_text(datetime: Timestamp) -> Seq<char> {
    match utc_datetime_text(datetime.seconds, datetime.nanoseconds) {
        Some(text) => text,
        None => Seq::empty(),
    }
}

pub fn datetime_to_str(datetime: &Timestamp) -> (r: String)
    ensures
        r@ == datetime_text(*datetime),
{
    match datetime.utc_text() {
        Some(text) => text,
        None => String::new(),
    }
}

/// The text of a bound in time: that of the point in time, or `None` where
/// there is no bound.
pub open spec fn active_datetime_text(active_datetime: Option<Timestamp>) -> Seq<char> {
    match active_datetime {
        Some(datetime) => datetime_text(datetime),
        None => "None"@,
    }
}

pub fn active_datetime_to_str(active_datetime: &Option<Timestamp>) -> (r: String)
    ensures
        r@ == active_datetime_text(*active_datetime),
{
    match active_datetime {
        Some(datetime) => datetime_to_str(datetime),
        None => "None".to_owned(),
    }
}

/// How `std` prints the one-cancels-all group of an order with `{:?}`:
/// `None`, or `Some(..)` around the name in quotes, with its escapes.
pub uninterp spec fn oca_debug_text(oca: Option<Seq<char>>) -> Seq<char>;

/// Prints the group with `format!("{:?}", ..)`, that is with `Debug` of
/// `Option<String>`. The contract claims that the text is a function of the
/// group alone, and gives that function a name.
#[verifier::external_body]
fn oca_to_str(oca: &Option<OcaGroup>) -> (r: String)
    ensures
        r@ == oca_debug_text(text_of(*oca)),
{
    format!("{:?}", oca)
}

/// The decimal digit of a number below ten.
pub open spec fn decimal_digit(d: nat) -> char {
    ((d + 48) as u8) as char
}

/// The decimal digits of a number, without leading zeros.
pub open spec fn decimal_text(n: nat) -> Seq<char>
    decreases n,
{
    if n < 10 {
        seq![decimal_digit(n)]
    } else {
        decimal_text(n / 10).push(decimal_digit(n % 10))
    }
}

/// Calls `u32::to_string`, that is `Display` of `u32`. The contract states
/// what it prints: the decimal digits of the number, without sign and
/// without leading zeros.
#[verifier::external_body]
fn quantity_to_str(quantity: u32) -> (r: String)
    ensures
        r@ == decimal_text(quantity as nat),
{
    quantity.to_string()
}

/// The ten fields of a filled order in a report, with `price` as the text
/// of the price at which it was filled.
pub open spec fn order_fields(order: OrderView, price: Seq<char>) -> Seq<Seq<char>> {
    seq![
        order.id,
        order_kind_text(order.kind),
        active_datetime_text(order.active_until),
        active_datetime_text(order.active_after),
        direction_text(order.direction),
        oca_debug_text(order.oca),
        order.symbol_id,
        price,
        datetime_text(order.status->Filled_0.datetime),
        decimal_text(order.status->Filled_0.quantity as nat),
    ]
}

/// The twenty fields of a pair of orders in a report: those of the entry
/// order, then those of the exit order.
pub open spec fn order_pair_fields(
    pair: OrderPairView,
    entry_price: Seq<char>,
    exit_price: Seq<char>,
) -> Seq<Seq<char>> {
    order_fields(pair.entry_order, entry_price) + order_fields(pair.exit_order, exit_price)
}

/// Puts the ten fields of a filled order behind the fields of a record.
fn push_order_fields(record: &mut Vec<String>, order: &Order, price: String)
    requires
        order@.status is Filled,
    ensures
        texts(final(record)@) == texts(old(record)@) + order_fields(order@, price@),
{
    let ghost before = texts(record@);
    let execution = get_execution(order);
    record.push(order.id().clone());
    record.push(order_kind_to_str(order.kind()));
    record.push(active_datetime_to_str(order.active_until()));
    record.push(active_datetime_to_str(order.active_after()));
    record.push(direction_to_str(order.direction()));
    record.push(oca_to_str(order.oca()));
    record.push(order.symbol_id().clone());
    record.push(price);
    record.push(datetime_to_str(execution.datetime()));
    record.push(quantity_to_str(*execution.quantity()));
    assert(texts(record@) =~= before + order_fields(order@, price@));
}

/// The record of a pair of filled orders in a report. The prices are
/// handed in as texts.
pub fn order_pair_record(pair: &OrderPair, entry_price: String, exit_price: String) -> (r: Vec<
    String,
>)
    requires
        pair@.entry_order.status is Filled,
        pair@.exit_order.status is Filled,
    ensures
        texts(r@) == order_pair_fields(pair@, entry_price@, exit_price@),
{
    let mut record: Vec<String> = Vec::new();
    assert(texts(record@) =~= Seq::<Seq<char>>::empty());
    push_order_fields(&mut record, pair.entry_order, entry_price);
    push_order_fields(&mut record, pair.exit_order, exit_price);
    assert(texts(record@) =~= order_pair_fields(pair@, entry_price@, exit_price@));
    record
}

/// The fill of a filled order.
pub fn get_execution(order: &Order) -> (r: &Execution)
    requires
        order@.status is Filled,
    ensures
        order@.status == OrderStatusView::Filled(r@),
{
    order.execution().unwrap()
}

} // verus!
