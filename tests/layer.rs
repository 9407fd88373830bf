use lightgbm::error::{check_call, is_failure, Error};
use lightgbm::model::{check_c_text, feature_buffer_len};
use lightgbm::names::{name_slots, slot_text, slot_texts, NAME_CAPACITY};
use lightgbm::params::{encode, same_text, Config, ParamValue};
use lightgbm::predict::{prediction_len, prediction_rows};
use lightgbm::training::{iterations, plan};

fn binary_config(rounds: Option<i64>) -> Config {
    let mut c = Config::new();
    if let Some(n) = rounds {
        c.set("num_iterations".to_string(), ParamValue::Int(n));
    }
    c.set("objective".to_string(), ParamValue::Text("binary".to_string()));
    c.set("metric".to_string(), ParamValue::Text("auc".to_string()));
    c
}

fn filled_slot(name: &[u8]) -> Vec<u8> {
    let mut slot = name.to_vec();
    slot.push(0);
    while slot.len() < NAME_CAPACITY + 1 {
        slot.push(b' ');
    }
    slot
}

#[test]
fn status_zero_is_success() {
    assert!(!is_failure(0));
    assert!(check_call(0, "ignored".to_string()).is_ok());
}

#[test]
fn nonzero_status_carries_last_error() {
    assert!(is_failure(-1));
    match check_call(-1, "Could not open ./missing.model".to_string()) {
        Err(Error::NativeCallFailure(m)) => assert_eq!(m, "Could not open ./missing.model"),
        other => panic!("unexpected {:?}", other),
    }
}

#[test]
fn encodes_pairs_in_order() {
    let c = binary_config(Some(3));
    assert_eq!(
        encode(&c).unwrap(),
        "num_iterations=3 objective=\"binary\" metric=\"auc\""
    );
}

#[test]
fn encodes_numbers_and_negative_integers() {
    let mut c = Config::new();
    c.set("learning_rate".to_string(), ParamValue::Number("0.05".to_string()));
    c.set("data_random_seed".to_string(), ParamValue::Int(0));
    c.set("offset".to_string(), ParamValue::Int(-120));
    c.set("max_bin".to_string(), ParamValue::Int(i64::MIN));
    assert_eq!(
        encode(&c).unwrap(),
        "learning_rate=0.05 data_random_seed=0 offset=-120 max_bin=-9223372036854775808"
    );
}

#[test]
fn empty_config_encodes_to_empty_text() {
    assert_eq!(encode(&Config::new()).unwrap(), "");
}

#[test]
fn set_replaces_in_place() {
    let mut c = binary_config(Some(3));
    c.set("objective".to_string(), ParamValue::Text("regression".to_string()));
    assert_eq!(c.len(), 3);
    assert_eq!(
        encode(&c).unwrap(),
        "num_iterations=3 objective=\"regression\" metric=\"auc\""
    );
}

#[test]
fn unsupported_value_is_refused() {
    let mut c = binary_config(None);
    c.set("categorical".to_string(), ParamValue::Unsupported);
    match encode(&c) {
        Err(Error::EncodingFailure(k)) => assert_eq!(k, "categorical"),
        other => panic!("unexpected {:?}", other),
    }
}

#[test]
fn spaces_are_refused() {
    let mut c = Config::new();
    c.set("objective".to_string(), ParamValue::Text("multi class".to_string()));
    assert!(matches!(encode(&c), Err(Error::EncodingFailure(_))));
    let mut d = Config::new();
    d.set("bad key".to_string(), ParamValue::Int(1));
    assert!(matches!(encode(&d), Err(Error::EncodingFailure(_))));
    let mut e = Config::new();
    e.set("rate".to_string(), ParamValue::Number("1 0".to_string()));
    assert!(matches!(encode(&e), Err(Error::EncodingFailure(_))));
}

#[test]
fn default_is_one_hundred_rounds() {
    let c = binary_config(None);
    assert_eq!(iterations(&c).unwrap(), 100);
    let mut p = plan(&c).unwrap();
    assert_eq!(p.rounds(), 100);
    let mut updates = 0;
    while p.next_update() {
        updates += 1;
    }
    assert_eq!(updates, 99);
    assert!(!p.next_update());
}

#[test]
fn given_rounds_are_kept() {
    for n in [1i64, 3, 10] {
        let c = binary_config(Some(n));
        let mut p = plan(&c).unwrap();
        assert_eq!(p.rounds(), n as u64);
        let mut updates = 0;
        while p.next_update() {
            updates += 1;
        }
        assert_eq!(updates, n - 1);
        assert_eq!(p.params(), encode(&c).unwrap());
    }
}

#[test]
fn zero_rounds_still_create() {
    let c = binary_config(Some(0));
    let mut p = plan(&c).unwrap();
    assert_eq!(p.rounds(), 1);
    assert!(!p.next_update());
}

#[test]
fn non_integer_rounds_are_refused() {
    let mut c = Config::new();
    c.set("num_iterations".to_string(), ParamValue::Number("2.5".to_string()));
    assert!(matches!(iterations(&c), Err(Error::EncodingFailure(_))));
    assert!(matches!(plan(&c), Err(Error::EncodingFailure(_))));
}

#[test]
fn whole_rows_give_one_score_each() {
    let rows = prediction_rows(28 * 2500, 28).unwrap();
    assert_eq!(rows, 2500);
    assert_eq!(prediction_len(rows, 1).unwrap(), 2500);
    assert_eq!(prediction_len(rows, 3).unwrap(), 7500);
}

#[test]
fn partial_row_is_left_out() {
    assert_eq!(prediction_rows(28 * 2500 + 5, 28).unwrap(), 2500);
    assert_eq!(prediction_rows(27, 28).unwrap(), 0);
}

#[test]
fn five_rows_of_four_features() {
    let rows = prediction_rows(20, 4).unwrap();
    assert_eq!(rows, 5);
    assert_eq!(prediction_len(rows, 1).unwrap(), 5);
}

#[test]
fn bad_shapes_are_refused() {
    assert!(matches!(prediction_rows(10, 0), Err(Error::EncodingFailure(_))));
    assert!(matches!(prediction_rows(10, -2), Err(Error::EncodingFailure(_))));
    assert!(matches!(prediction_rows(usize::MAX, 1), Err(Error::EncodingFailure(_))));
    assert!(matches!(prediction_len(-1, 1), Err(Error::EncodingFailure(_))));
    assert!(matches!(prediction_len(4, -1), Err(Error::EncodingFailure(_))));
}

#[test]
fn one_slot_per_feature() {
    let slots = name_slots(28);
    assert_eq!(slots.len(), 28);
    for s in &slots {
        assert_eq!(s.len(), NAME_CAPACITY + 1);
        assert_eq!(s[NAME_CAPACITY], 0);
        assert!(s[..NAME_CAPACITY].iter().all(|b| *b == b' '));
    }
    assert!(name_slots(-3).is_empty());
}

#[test]
fn filled_slots_give_names() {
    let slots: Vec<Vec<u8>> = (0..28)
        .map(|i| filled_slot(format!("Column_{}", i).as_bytes()))
        .collect();
    let names = slot_texts(&slots).unwrap();
    let target = (0..28).map(|i| format!("Column_{}", i)).collect::<Vec<_>>();
    assert_eq!(names, target);
}

#[test]
fn long_name_is_cut_at_capacity() {
    let long = [b'x'; 40].to_vec();
    let name = slot_text(&long).unwrap();
    assert_eq!(name.len(), NAME_CAPACITY);
    assert_eq!(name, "x".repeat(NAME_CAPACITY));
}

#[test]
fn multibyte_name_is_decoded() {
    let slot = filled_slot("caf\u{e9}".as_bytes());
    assert_eq!(slot_text(&slot).unwrap(), "caf\u{e9}");
}

#[test]
fn invalid_utf8_name_is_refused() {
    let slot = filled_slot(&[0x66, 0xff, 0x66]);
    assert!(matches!(slot_text(&slot), Err(Error::EncodingFailure(_))));
    assert!(matches!(slot_texts(&vec![slot]), Err(Error::EncodingFailure(_))));
}

#[test]
fn paths_with_zero_are_refused() {
    assert!(check_c_text("./test/test_save_file.output").is_ok());
    assert!(matches!(check_c_text("bad\0path"), Err(Error::EncodingFailure(_))));
}

#[test]
fn feature_buffers_match_count() {
    assert_eq!(feature_buffer_len(28), 28);
    assert_eq!(feature_buffer_len(0), 0);
    assert_eq!(feature_buffer_len(-1), 0);
}

#[test]
fn texts_compare_by_characters() {
    assert!(same_text("num_iterations", "num_iterations"));
    assert!(!same_text("num_iterations", "num_iteration"));
    assert!(!same_text("abc", "abd"));
}
