use gpuix_native::number::{raw_element_id, InvalidElementId, JsNumber, MAX_SAFE_INTEGER};

fn js(value: f64) -> JsNumber {
    JsNumber { bits: value.to_bits() }
}

#[test]
fn whole_non_negative_safe_numbers_are_ids() {
    assert_eq!(raw_element_id(js(0.0)), Ok(0));
    assert_eq!(raw_element_id(js(-0.0)), Ok(0));
    assert_eq!(raw_element_id(js(1.0)), Ok(1));
    assert_eq!(raw_element_id(js(42.0)), Ok(42));
    assert_eq!(raw_element_id(js(4096.0)), Ok(4096));
    assert_eq!(raw_element_id(js(9_007_199_254_740_991.0)), Ok(MAX_SAFE_INTEGER));
}

#[test]
fn other_numbers_are_rejected_and_carried_in_the_error() {
    for bad in [-1.0, 1.5, 0.5, 9_007_199_254_740_992.0, 1e300, f64::INFINITY, f64::NEG_INFINITY, f64::NAN, 5e-324, -7.0] {
        assert_eq!(raw_element_id(js(bad)), Err(InvalidElementId { id: js(bad) }), "{bad}");
    }
}

#[test]
fn large_ids_below_the_limit_round_trip() {
    for n in [1u64 << 52, (1u64 << 53) - 2, 123_456_789_012_345, 1 << 40] {
        assert_eq!(raw_element_id(js(n as f64)), Ok(n));
    }
}
