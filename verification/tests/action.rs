use trolly_gym::action::OutboundMessage;
use trolly_gym::replay::{action_from_index, action_index};
use trolly_gym::{Action, ActionDecision};

#[test]
fn from_side_maps_user_stream_strings() {
    assert_eq!(Action::from_side("buy"), Some(Action::Buy));
    assert_eq!(Action::from_side("SELL"), Some(Action::Sell));
    assert_eq!(Action::from_side("Hold"), Some(Action::Hold));
    assert_eq!(Action::from_side("unknown"), None);
}

#[test]
fn on_symbol_keeps_side_and_names_pair() {
    let decision = Action::Sell.on_symbol("ETHUSDT");
    assert_eq!(decision.action, Action::Sell);
    assert_eq!(decision.symbol.as_deref(), Some("ETHUSDT"));
    assert_eq!(ActionDecision::from(Action::Hold).symbol, None);
}

#[test]
fn action_index_roundtrip() {
    for action in [Action::Hold, Action::Buy, Action::Sell] {
        assert_eq!(action_from_index(action_index(action)), action);
    }
}

#[test]
fn from_index_wraps_euclidean() {
    assert_eq!(Action::from_index(0), Action::Hold);
    assert_eq!(Action::from_index(1), Action::Buy);
    assert_eq!(Action::from_index(2), Action::Sell);
    assert_eq!(Action::from_index(3), Action::Hold);
    assert_eq!(Action::from_index(-1), Action::Sell);
    assert_eq!(Action::from_index(-2), Action::Buy);
    assert_eq!(Action::from_index(-3), Action::Hold);
    assert_eq!(Action::from_index(i64::MIN), Action::Buy);
    assert_eq!(Action::from_index(i64::MAX), Action::Buy);
    for a in [Action::Hold, Action::Buy, Action::Sell] {
        assert_eq!(Action::from_index(a.as_index()), a);
        assert_eq!(Action::from_index(a.as_index() + 3), a);
    }
    assert_eq!(Action::COUNT, 3);
}

#[test]
fn from_side_trims_and_ignores_case() {
    assert_eq!(Action::from_side("  sell \n"), Some(Action::Sell));
    assert_eq!(Action::from_side("bUy"), Some(Action::Buy));
    assert_eq!(Action::from_side(""), None);
    assert_eq!(Action::from_side("buyer"), None);
}

#[test]
fn target_position_moves_to_unit_lots() {
    assert_eq!(Action::Hold.target_position(-1), -1);
    assert_eq!(Action::Hold.target_position(0), 0);
    assert_eq!(Action::Buy.target_position(-1), 1);
    assert_eq!(Action::Sell.target_position(1), -1);
}

#[test]
fn outbound_order_side_reads_back_through_from_side() {
    let buy = Action::Buy.to_outbound("SYNTHUSDT", "1", None);
    assert_eq!(
        buy,
        OutboundMessage::OrderRequest {
            symbol: "SYNTHUSDT".into(),
            side: "BUY".into(),
            qty: "1".into(),
            price: None,
        }
    );
    let sell = Action::Sell.to_outbound("ETHUSDT", "2", Some("3000.5"));
    match &sell {
        OutboundMessage::OrderRequest { side, price, .. } => {
            assert_eq!(Action::from_side(side), Some(Action::Sell));
            assert_eq!(price.as_deref(), Some("3000.5"));
        }
        other => panic!("unexpected {other:?}"),
    }
    assert_eq!(
        Action::Hold.to_outbound("BTCUSDT", "1", None),
        OutboundMessage::Subscribe {
            symbol: "BTCUSDT".into(),
            channel: "depth".into(),
        }
    );
}
