use modal_logic::expression::{expression, ExprInput, Expression, ExpressionConfig};

#[test]
fn config_starts_with_sine() {
    let config = ExpressionConfig::new();
    assert_eq!(config.enabled, [true, true, false, false, false, false, false, false]);
    assert_eq!(config.edit, "sin(x + y)");
    assert_eq!(config.ready, "sin(x + y)");
    assert!(config.new_formula);
}

#[test]
fn submitting_an_edit() {
    let mut config = ExpressionConfig::new();
    config.new_formula = false;
    config.submit();
    assert!(!config.new_formula);
    config.edit = "x * y".to_string();
    config.submit();
    assert!(config.new_formula);
    assert_eq!(config.ready, "x * y");
}

#[test]
fn variables_in_order() {
    let inputs = ExprInput::new();
    let names: Vec<_> = inputs.iter().map(|i| i.name.as_str()).collect();
    assert_eq!(names, vec!["x", "y", "a", "b", "c", "d"]);
    let enabled: Vec<_> = inputs.iter().map(|i| i.enabled).collect();
    assert_eq!(enabled, vec![true, true, false, false, false, false]);
}

#[test]
fn new_node_takes_the_submitted_formula_once() {
    let mut node = expression();
    let mut config = ExpressionConfig::new();
    assert_eq!(node.take_formula(&mut config), Some("sin(x + y)".to_string()));
    assert!(!config.new_formula);
    assert_eq!(node.take_formula(&mut config), None);
    node.compiled("sin(x + y)".to_string());
    assert_eq!(node.last_valid_expr, "sin(x + y)");
}

#[test]
fn restored_node_resubmits_its_formula() {
    let mut node = Expression::restore("a - b".to_string(), ExprInput::new(), false, false);
    let mut config = ExpressionConfig::new();
    config.new_formula = false;
    config.ready = "something else".to_string();
    assert_eq!(node.take_formula(&mut config), Some("a - b".to_string()));
    assert_eq!(config.ready, "a - b");
    assert_eq!(node.take_formula(&mut config), None);
}

#[test]
fn data_slots_follow_enabled_inputs() {
    let mut node = expression();
    let slots = node.data_slots();
    assert_eq!(slots.vars, vec![Some(0), Some(1), None, None, None, None]);
    assert_eq!(slots.sig1, None);
    assert_eq!(slots.sig2, None);

    let mut config = ExpressionConfig::new();
    config.enabled = [false, true, false, true, false, true, false, true];
    assert!(node.sync_inputs(&config));
    let slots = node.data_slots();
    assert_eq!(slots.vars, vec![None, Some(0), None, Some(1), None, Some(2)]);
    assert_eq!(slots.sig1, None);
    assert_eq!(slots.sig2, Some(3));
    assert_eq!(node.input_names(), vec!["y", "b", "d", "sig2"]);
    assert!(!node.sync_inputs(&config));
}

#[test]
fn both_signals_follow_the_variables() {
    let mut node = expression();
    let mut config = ExpressionConfig::new();
    config.enabled[6] = true;
    config.enabled[7] = true;
    assert!(node.sync_inputs(&config));
    let slots = node.data_slots();
    assert_eq!(slots.sig1, Some(2));
    assert_eq!(slots.sig2, Some(3));
    assert_eq!(node.input_names(), vec!["x", "y", "sig1", "sig2"]);
}

#[test]
fn outputs_are_the_value_and_the_signals() {
    let node = expression();
    assert_eq!(node.output_names(), vec!["f(..)", "sig1", "sig2"]);
}

#[test]
fn signal_inputs_come_last_by_name() {
    let mut node = expression();
    let mut config = ExpressionConfig::new();
    config.enabled = [false, false, true, false, false, false, true, false];
    node.sync_inputs(&config);
    assert_eq!(node.input_names(), vec!["a", "sig1"]);
    config.enabled[7] = true;
    node.sync_inputs(&config);
    assert_eq!(node.input_names(), vec!["a", "sig1", "sig2"]);
}
