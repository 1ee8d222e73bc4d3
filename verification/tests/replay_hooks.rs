use chronos_collector::replay_hooks::{
    arm, disarm, extract_result_string, hook_return, hook_selector, is_armed, kind_for_symbol,
    original_for, slot_symbol, write_scalar_return, Hooks, SLOTS,
};
use chronos_collector::zend_helpers::{Call, Key, Zval};

fn text(value: &str) -> Zval {
    Zval::Str(value.as_bytes().to_vec())
}

fn entry(key: &str, value: Zval) -> (Key, Zval) {
    (Key::Str(key.to_owned()), value)
}

#[test]
fn maps_scalar_symbols_to_effect_channels() {
    assert_eq!(kind_for_symbol("time"), Some("time"));
    assert_eq!(kind_for_symbol("mt_rand"), Some("random"));
    assert_eq!(kind_for_symbol("getenv"), Some("env"));
    assert_eq!(kind_for_symbol("strlen"), None);
}

#[test]
fn every_slot_has_a_channel() {
    for slot in 0..SLOTS {
        assert!(kind_for_symbol(slot_symbol(slot)).is_some());
    }
}

#[test]
fn arming_twice_hooks_once_and_keeps_the_first_handlers() {
    let mut hooks = Hooks::new();
    let mut found: Vec<Option<Option<u64>>> = vec![Some(Some(10)); SLOTS];
    found[1] = None;
    found[2] = Some(None);
    let hooked = arm(&mut hooks, &found);
    assert!(is_armed(&hooks));
    assert!(hooked[0] && !hooked[1] && hooked[2]);
    let again = arm(&mut hooks, &vec![Some(Some(99)); SLOTS]);
    assert!(again.iter().all(|hook| !hook));
    assert_eq!(original_for(&hooks, "time"), Some(10));
    assert_eq!(original_for(&hooks, "microtime"), None);
    assert_eq!(original_for(&hooks, "strlen"), None);
    assert!(disarm(&mut hooks));
    assert!(!disarm(&mut hooks));
    assert!(!is_armed(&hooks));
    assert_eq!(original_for(&hooks, "time"), Some(10));
    assert_eq!(original_for(&hooks, "hrtime"), None);
}

#[test]
fn an_answer_is_read_from_its_result_then_its_value() {
    let both = Zval::Array(vec![entry("value", text("v")), entry("result", Zval::Long(4))]);
    assert_eq!(extract_result_string(&both).as_deref(), Some("4"));
    let value = Zval::Array(vec![entry("result", Zval::Null), entry("value", Zval::Double("1.5".to_owned()))]);
    assert_eq!(extract_result_string(&value).as_deref(), Some("1.5"));
    assert_eq!(extract_result_string(&text("plain")).as_deref(), Some("plain"));
    assert_eq!(extract_result_string(&Zval::Null), None);
    assert_eq!(extract_result_string(&Zval::Str(vec![0xff])), None);
}

#[test]
fn an_answer_takes_the_builtins_own_type() {
    assert!(matches!(write_scalar_return("time", "-12", &None), Zval::Long(-12)));
    assert!(matches!(write_scalar_return("time", "soon", &None), Zval::Str(_)));
    let double = Some("1.25".to_owned());
    assert!(matches!(write_scalar_return("hrtime", "1.25", &double), Zval::Double(_)));
    assert!(matches!(write_scalar_return("uniqid", "12", &None), Zval::Str(_)));
    assert!(matches!(hook_return("rand", &Some(text("9")), &None), Some(Zval::Long(9))));
    assert!(hook_return("rand", &Some(Zval::Null), &None).is_none());
    assert!(hook_return("rand", &None, &None).is_none());
}

#[test]
fn an_environment_read_is_selected_by_its_variable() {
    let call = Call { function: 0, func: None, this: None, args: vec![text("HOME")] };
    assert_eq!(hook_selector("getenv", &call), "HOME");
    assert_eq!(hook_selector("time", &call), "time");
}
