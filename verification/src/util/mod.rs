mod get_order_pairs;
mod write_order_pairs_to_csv;

pub mod record_parser;
pub use self::get_order_pairs::{
    exit_pair_at, fill_time, get_order_pairs, law_order_pairs_are_sorted, lemma_place_of,
    order_pairs_among, pair_views, place_of, sorted_by_entry, OrderPair, OrderPairView,
};
pub use self::write_order_pairs_to_csv::{
    active_datetime_text, active_datetime_to_str, datetime_text, datetime_to_str, decimal_digit,
    decimal_text, direction_text, direction_to_str, get_execution, oca_debug_text,
    order_fields, order_kind_text, order_kind_to_str, order_pair_columns, order_pair_fields,
    order_pair_header, order_pair_record, texts,
};
