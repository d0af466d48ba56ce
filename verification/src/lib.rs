//! A central limit order book (CLOB) matching engine for a single market.
//!
//! The book keeps two sorted sides of resting limit orders. `place_order`
//! drives an incoming order through an order-type-specific state machine,
//! matches it against the opposite side in price-time priority, mutates the
//! book, and returns a settlement report. All arithmetic is integer-only;
//! price-quantity products are computed in 256-bit space.

use vstd::prelude::*;

mod account;
mod bn;
mod calculator;
mod l2;
mod laws;
mod market_id;
mod matching;
mod order_id;
mod open_limit_order;
mod orderbook;
mod order_type;
mod side;
mod tvl;

pub use account::AccountId;
pub use bn::BN;
pub use bn::BPS_DIVISOR;
pub use laws::lemma_bqv_price_monotone;
pub use laws::lemma_bqv_superadd;
pub use laws::lemma_match_ranks_nondecreasing;
pub use laws::lemma_place_order_conserves_value;
pub use laws::lemma_price_rank_monotone;
pub use laws::lemma_rank_bounded;
pub use l2::eff_price;
pub use l2::entry_before;
pub use l2::entry_nat_before;
pub use l2::has_key;
pub use l2::idx_of;
pub use l2::key_before;
pub use l2::key_matches;
pub use l2::max_entry_idx;
pub use l2::min_entry_idx;
pub use l2::init_entry;
pub use l2::price_levels;
pub use l2::take_depth_spec;
pub use l2::depth_from;
pub use l2::DepthState;
pub use l2::side_base_locked;
pub use l2::side_quote_locked;
pub use l2::sorted_entries;
pub use l2::rank_spec;
pub use l2::save_spec;
pub use l2::VecL2;
pub use market_id::MarketId;
pub use matching::aligned_at;
pub use matching::consume;
pub use matching::crosses;
pub use matching::kept_count;
pub use matching::maker_side_of;
pub use matching::match_fatal;
pub use matching::match_walk;
pub use matching::sum_fills;
pub use matching::sum_paid;
pub use matching::walk_from;
pub use matching::walk_init;
pub use matching::match_corresponds;
pub use matching::match_fields_correspond;
pub use matching::place_fatal;
pub use matching::place_order_post;
pub use matching::place_outcome_spec;
pub use matching::place_posts;
pub use matching::place_quote_amount;
pub use matching::place_rejected_spec;
pub use matching::posted_order_matches;
pub use matching::MatchSpec;
pub use matching::Walk;
pub use order_id::get_order_id_parts;
pub use order_id::id_price;
pub use order_id::id_sequence;
pub use order_id::id_side;
pub use order_id::lemma_order_id_round_trip;
pub use order_id::new_order_id;
pub use order_id::order_id_value;
pub use order_id::OrderId;
pub use open_limit_order::order_base_locked;
pub use open_limit_order::order_quote_locked;
pub use open_limit_order::order_tvl_in_range;
pub use open_limit_order::OpenLimitOrder;
pub use order_type::OrderType;
pub use orderbook::matches_base_traded;
pub use orderbook::matches_fill_total;
pub use orderbook::matches_quote_traded;
pub use orderbook::EngineError;
pub use orderbook::Match;
pub use orderbook::MatchOrderResult;
pub use orderbook::NewOrder;
pub use orderbook::Orderbook;
pub use orderbook::OrderOutcome;
pub use orderbook::PlaceOrderResult;
pub use orderbook::PlaceOrderResultView;
pub use orderbook::VecOrderbook;
pub use tvl::Tvl;
pub use calculator::base_purchasable_in_range;
pub use calculator::base_purchasable_spec;
pub use calculator::bid_quote_value_in_range;
pub use calculator::bid_quote_value_spec;
pub use calculator::checked_base_purchasable;
pub use calculator::checked_bid_quote_value;
pub use calculator::lemma_fill_cost_within_budget;
pub use calculator::get_base_purchasable;
pub use calculator::get_bid_quote_value;
pub use calculator::OrderbookCalculator;
pub use side::Side;

verus! {

/// Sequence numbers are assigned by the caller, unique per book, in `[1, 2^63)`.
pub type SequenceNumber = u64;

/// Quantities and prices expressed in lots.
pub type LotBalance = u64;

/// Tag chosen by the caller, echoed back on reports.
pub type ClientId = u32;

/// A byte string whose host-facing JSON form is base58 text. The engine only
/// carries the bytes; encoding happens at the host boundary.
pub struct Base58VecU8(pub Vec<u8>);

} // verus!
