use manage::util::is_controller;

#[test]
fn test_is_controller() {
    let err = String::from("get_canister_status faile: 5: Only the controllers of the canister r7inp-6aaaa-aaaaa-aaabq-cai can control it.\nCanister\'s controllers: rrkah-fqaaa-aaaaa-aaaaq-cai dzhx6-f63tz-aslp6-xxyzd-pknwt-lxpho-q2wsx-pvwwd-v3nq6-75ek5-rqe\nSender\'s ID: r7inp-6aaaa-aaaaa-aaabq-cai");
    let controller = "r7inp-6aaaa-aaaaa-aaabq-cai";
    assert_eq!(is_controller(err.as_str(), controller), false);

    let controller = "rrkah-fqaaa-aaaaa-aaaaq-cai";
    assert_eq!(is_controller(err.as_str(), controller), true);
}

#[test]
fn controller_token_must_match_whole() {
    let text = "header line\naaa bbb ccc\ntrailer";
    assert!(is_controller(text, "bbb"));
    assert!(is_controller(text, "aaa"));
    assert!(is_controller(text, "ccc"));
    assert!(!is_controller(text, "bb"));
    assert!(!is_controller(text, "trailer"));
    assert!(!is_controller(text, "header"));
}

#[test]
fn controller_line_may_end_without_newline() {
    let text = "first\nonly-token";
    assert!(is_controller(text, "only-token"));
    assert!(!is_controller(text, "first"));
}
