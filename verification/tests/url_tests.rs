use fritztv::url::{avm_from_rtsp_url, mux_key_from_rtsp_url, query_param, set_query_param};

#[test]
fn query_param_finds_value() {
    let url = "rtsp://h/?freq=450&avm=2&pids=100";
    assert_eq!(query_param(url, "freq"), Some("450".to_string()));
    assert_eq!(query_param(url, "avm"), Some("2".to_string()));
    assert_eq!(query_param(url, "pids"), Some("100".to_string()));
    assert_eq!(query_param(url, "bw"), None);
}

#[test]
fn query_param_without_query_is_none() {
    assert_eq!(query_param("rtsp://h/", "freq"), None);
}

#[test]
fn query_param_is_found_behind_a_part_without_equals() {
    assert_eq!(query_param("rtsp://h/?flag&freq=450", "freq"), Some("450".to_string()));
    assert_eq!(query_param("rtsp://h/?freq=450&flag", "freq"), Some("450".to_string()));
    assert_eq!(query_param("rtsp://h/?a=1&&b=2", "b"), Some("2".to_string()));
    assert_eq!(query_param("rtsp://h/?flag&freq=450", "flag"), Some(String::new()));
    assert_eq!(query_param("rtsp://h/?a=1&&b=2", ""), None);
    assert_eq!(query_param("rtsp://h/?=v", ""), Some("v".to_string()));
}

#[test]
fn tuner_slot_is_found_behind_a_part_without_equals() {
    assert_eq!(avm_from_rtsp_url("rtsp://h/?x&avm=3"), Some(3));
    assert_eq!(avm_from_rtsp_url("rtsp://h/?&avm=4"), Some(4));
    assert_eq!(avm_from_rtsp_url("rtsp://h/?avm&avm=4"), None);
    assert_eq!(
        mux_key_from_rtsp_url("rtsp://h/?x&freq=450&bw"),
        "freq=450&bw=&msys=&mtype=&sr=&specinv="
    );
}

#[test]
fn query_param_takes_first_pair_and_splits_at_first_equals() {
    assert_eq!(query_param("x?a=1&a=2", "a"), Some("1".to_string()));
    assert_eq!(query_param("x?a=b=c", "a"), Some("b=c".to_string()));
    assert_eq!(query_param("x?y?a=1", "a"), None);
    assert_eq!(query_param("x?a=", "a"), Some(String::new()));
}

#[test]
fn mux_key_has_fixed_order() {
    let url = "rtsp://192.168.178.1:554/?avm=1&freq=450&bw=8&msys=dvbc&mtype=256qam&sr=6900&specinv=1&pids=0,16";
    assert_eq!(
        mux_key_from_rtsp_url(url),
        "freq=450&bw=8&msys=dvbc&mtype=256qam&sr=6900&specinv=1"
    );
    let shuffled = "rtsp://h/?specinv=1&sr=6900&mtype=256qam&msys=dvbc&bw=8&freq=450&avm=3&pids=1";
    assert_eq!(
        mux_key_from_rtsp_url(shuffled),
        "freq=450&bw=8&msys=dvbc&mtype=256qam&sr=6900&specinv=1"
    );
}

#[test]
fn mux_key_keeps_empty_values() {
    assert_eq!(
        mux_key_from_rtsp_url("rtsp://h/?freq=450&pids=100"),
        "freq=450&bw=&msys=&mtype=&sr=&specinv="
    );
    assert_eq!(
        mux_key_from_rtsp_url("rtsp://127.0.0.1:8554/test"),
        "freq=&bw=&msys=&mtype=&sr=&specinv="
    );
}

#[test]
fn mux_key_ignores_tuner_slot_and_pids() {
    let a = mux_key_from_rtsp_url("rtsp://h/?freq=450&avm=1&pids=100");
    let b = mux_key_from_rtsp_url("rtsp://h/?freq=450&avm=4&pids=200");
    assert_eq!(a, b);
}

#[test]
fn tuner_slot_is_parsed() {
    assert_eq!(avm_from_rtsp_url("rtsp://h/?freq=450&avm=2&pids=100"), Some(2));
    assert_eq!(avm_from_rtsp_url("rtsp://h/?avm=+7"), Some(7));
    assert_eq!(avm_from_rtsp_url("rtsp://h/?avm=007"), Some(7));
    assert_eq!(avm_from_rtsp_url("rtsp://h/?avm=4294967295"), Some(4294967295));
}

#[test]
fn tuner_slot_rejects_what_is_no_number() {
    assert_eq!(avm_from_rtsp_url("rtsp://h/?freq=450"), None);
    assert_eq!(avm_from_rtsp_url("rtsp://h/"), None);
    assert_eq!(avm_from_rtsp_url("rtsp://h/?avm="), None);
    assert_eq!(avm_from_rtsp_url("rtsp://h/?avm=+"), None);
    assert_eq!(avm_from_rtsp_url("rtsp://h/?avm=-1"), None);
    assert_eq!(avm_from_rtsp_url("rtsp://h/?avm=2x"), None);
    assert_eq!(avm_from_rtsp_url("rtsp://h/?avm= 2"), None);
    assert_eq!(avm_from_rtsp_url("rtsp://h/?avm=4294967296"), None);
    assert_eq!(avm_from_rtsp_url("rtsp://h/?avm=99999999999999999999999"), None);
}

#[test]
fn set_param_replaces_in_place() {
    assert_eq!(
        set_query_param("rtsp://h/?freq=450&avm=2&pids=100", "avm", "1"),
        "rtsp://h/?freq=450&avm=1&pids=100"
    );
}

#[test]
fn set_param_appends_when_missing() {
    assert_eq!(
        set_query_param("rtsp://h/?freq=450&pids=100", "avm", "3"),
        "rtsp://h/?freq=450&pids=100&avm=3"
    );
}

#[test]
fn set_param_without_query_appends_query() {
    assert_eq!(set_query_param("rtsp://h/", "avm", "1"), "rtsp://h/?avm=1");
}

#[test]
fn set_param_does_not_decode_values() {
    assert_eq!(
        set_query_param("rtsp://h/?pids=0%2C16,17&x=a+b", "avm", "2"),
        "rtsp://h/?pids=0%2C16,17&x=a+b&avm=2"
    );
}

#[test]
fn set_param_handles_odd_parts() {
    assert_eq!(set_query_param("x?a&&b=1&", "b", "2"), "x?a=&b=2");
    assert_eq!(set_query_param("x?b=1&b=3", "b", "2"), "x?b=2&b=2");
    assert_eq!(set_query_param("x?", "b", "2"), "x?b=2");
    assert_eq!(set_query_param("x?b", "b", "2"), "x?b=2");
    assert_eq!(set_query_param("x?a=1?b=2", "b", "9"), "x?a=1?b=2&b=9");
}
