//! Discrete actions of the training gym.
use vstd::prelude::*;
use crate::text::{ascii_upper, chars_of, eq_lit, str_to_string, to_upper, trim, trim_chars};

verus! {

/// Discrete action space for the training gym.
#[derive(Debug, Clone, Copy, PartialEq, Eq, Hash, Structural)]
pub enum Action {
    Hold,
    Buy,
    Sell,
}

/// Number of actions.
pub const ACTION_COUNT: i64 = 3;

pub open spec fn spec_from_index(index: int) -> Action {
    let r = index % 3;
    if r == 1 {
        Action::Buy
    } else if r == 2 {
        Action::Sell
    } else {
        Action::Hold
    }
}

pub open spec fn spec_as_index(a: Action) -> i64 {
    match a {
        Action::Hold => 0,
        Action::Buy => 1,
        Action::Sell => 2,
    }
}

pub open spec fn spec_from_side(side: Seq<char>) -> Option<Action> {
    let s = ascii_upper(trim(side));
    if s == "BUY"@ {
        Some(Action::Buy)
    } else if s == "SELL"@ {
        Some(Action::Sell)
    } else if s == "HOLD"@ {
        Some(Action::Hold)
    } else {
        None
    }
}

pub open spec fn spec_target_position(a: Action, current: i8) -> i8 {
    match a {
        Action::Hold => current,
        Action::Buy => 1,
        Action::Sell => -1i8,
    }
}

impl Action {
    pub const COUNT: i64 = 3;

    /// Maps a categorical policy index back to a gym action (index taken
    /// modulo three, Euclidean).
    pub fn from_index(index: i64) -> (r: Self)
        ensures
            r == spec_from_index(index as int),
    {
        let r: i64 = if index >= 0 {
            index % 3
        } else {
            let pos: u64 = (-(index + 1)) as u64;
            proof {
                assert(index as int % 3 == 2 - (pos as int % 3)) by (nonlinear_arith)
                    requires
                        pos == -(index + 1),
                ;
            }
            2 - ((pos % 3) as i64)
        };
        if r == 1 {
            Action::Buy
        } else if r == 2 {
            Action::Sell
        } else {
            Action::Hold
        }
    }

    /// Maps this action to its categorical policy index.
    pub fn as_index(self) -> (r: i64)
        ensures
            r == spec_as_index(self),
    {
        match self {
            Action::Hold => 0,
            Action::Buy => 1,
            Action::Sell => 2,
        }
    }

    /// Maps a user-stream / receipt side string onto `{Hold,Buy,Sell}`.
    pub fn from_side(side: &str) -> (r: Option<Self>)
        ensures
            r == spec_from_side(side@),
    {
        let cs = chars_of(side);
        let t = trim_chars(cs.as_slice());
        let u = to_upper(t.as_slice());
        let us = u.as_slice();
        if eq_lit(us, "BUY") {
            Some(Action::Buy)
        } else if eq_lit(us, "SELL") {
            Some(Action::Sell)
        } else if eq_lit(us, "HOLD") {
            Some(Action::Hold)
        } else {
            None
        }
    }

    /// Unit position after taking this action from `current_position`.
    pub fn target_position(self, current_position: i8) -> (r: i8)
        ensures
            r == spec_target_position(self, current_position),
    {
        match self {
            Action::Hold => current_position,
            Action::Buy => 1,
            Action::Sell => -1,
        }
    }

    /// Pins this side onto a tracked observation symbol.
    pub fn on_symbol(self, symbol: &str) -> (r: ActionDecision)
        ensures
            r.action == self,
            r.symbol matches Some(s) && s@ == symbol@,
    {
        ActionDecision { action: self, symbol: Some(str_to_string(symbol)) }
    }
}

/// Strategy egress command for an action: a depth subscription for Hold,
/// an order request otherwise (no time-in-force, no position side).
#[derive(Debug, Clone, PartialEq, Eq)]
pub enum OutboundMessage {
    Subscribe { symbol: String, channel: String },
    OrderRequest { symbol: String, side: String, qty: String, price: Option<String> },
}

/// The egress command as a spec value.
pub enum OutboundView {
    Subscribe { symbol: Seq<char>, channel: Seq<char> },
    OrderRequest { symbol: Seq<char>, side: Seq<char>, qty: Seq<char>, price: Option<Seq<char>> },
}

pub open spec fn opt_view(o: Option<&str>) -> Option<Seq<char>> {
    match o {
        Some(s) => Some(s@),
        None => None,
    }
}

impl OutboundMessage {
    pub open spec fn view(&self) -> OutboundView {
        match self {
            OutboundMessage::Subscribe { symbol, channel } => OutboundView::Subscribe {
                symbol: symbol@,
                channel: channel@,
            },
            OutboundMessage::OrderRequest { symbol, side, qty, price } => OutboundView::OrderRequest {
                symbol: symbol@,
                side: side@,
                qty: qty@,
                price: match price {
                    Some(p) => Some(p@),
                    None => None,
                },
            },
        }
    }
}

/// The order side text written for an action that trades.
pub open spec fn side_text(a: Action) -> Seq<char> {
    match a {
        Action::Buy => "BUY"@,
        _ => "SELL"@,
    }
}

pub open spec fn spec_outbound(a: Action, symbol: Seq<char>, qty: Seq<char>, price: Option<
    Seq<char>,
>) -> OutboundView {
    match a {
        Action::Hold => OutboundView::Subscribe { symbol, channel: "depth"@ },
        _ => OutboundView::OrderRequest { symbol, side: side_text(a), qty, price },
    }
}

impl Action {
    /// The egress command that carries this action for `symbol`.
    pub fn to_outbound(&self, symbol: &str, qty: &str, price: Option<&str>) -> (r: OutboundMessage)
        ensures
            r.view() == spec_outbound(*self, symbol@, qty@, opt_view(price)),
    {
        let p = match price {
            Some(x) => Some(str_to_string(x)),
            None => None,
        };
        match self {
            Action::Hold => OutboundMessage::Subscribe {
                symbol: str_to_string(symbol),
                channel: str_to_string("depth"),
            },
            Action::Buy => OutboundMessage::OrderRequest {
                symbol: str_to_string(symbol),
                side: str_to_string("BUY"),
                qty: str_to_string(qty),
                price: p,
            },
            Action::Sell => OutboundMessage::OrderRequest {
                symbol: str_to_string(symbol),
                side: str_to_string("SELL"),
                qty: str_to_string(qty),
                price: p,
            },
        }
    }
}

/// A policy index read back is the action it was written from.
pub proof fn lemma_index_roundtrip(a: Action)
    ensures
        spec_from_index(spec_as_index(a) as int) == a,
{
}

/// Reading a policy index only looks at it modulo the action count.
pub proof fn lemma_from_index_periodic(index: int)
    ensures
        spec_from_index(index + 3) == spec_from_index(index),
        0 <= spec_as_index(spec_from_index(index)) < 3,
        spec_as_index(spec_from_index(index)) == index % 3,
{
    vstd::arithmetic::div_mod::lemma_mod_add_multiples_vanish(index, 3);
}

/// The side text of an order request parses back to the action that wrote
/// it.
pub proof fn lemma_side_roundtrip(a: Action)
    requires
        a != Action::Hold,
    ensures
        spec_from_side(side_text(a)) == Some(a),
{
    reveal_strlit("BUY");
    reveal_strlit("SELL");
    reveal_strlit("HOLD");
    assert(trim(side_text(a)) == side_text(a)) by {
        crate::text::lemma_trim_plain(side_text(a));
    }
    assert(ascii_upper(side_text(a)) =~= side_text(a));
    assert("BUY"@ != "SELL"@);
}

/// Side plus optional non-primary dispatch symbol. `symbol = None` keeps the
/// primary pair.
#[derive(Debug, Clone, PartialEq, Eq)]
pub struct ActionDecision {
    pub action: Action,
    pub symbol: Option<String>,
}

impl From<Action> for ActionDecision {
    fn from(action: Action) -> (r: Self) {
        ActionDecision { action, symbol: None }
    }
}

impl vstd::std_specs::convert::FromSpecImpl<Action> for ActionDecision {
    open spec fn obeys_from_spec() -> bool {
        true
    }

    open spec fn from_spec(action: Action) -> Self {
        ActionDecision { action, symbol: None }
    }
}

} // verus!
