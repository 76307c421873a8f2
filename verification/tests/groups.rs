use trigger_point::{group_keys, SPT};

fn in_group(group: u8) -> SPT {
    SPT {
        condition_negated: None,
        group,
        method: None,
        extension: None,
        session_case: None,
        request_uri: None,
        sip_header: None,
    }
}

#[test]
fn no_conditions_use_no_group() {
    assert_eq!(group_keys(&Vec::new()), Vec::<u8>::new());
}

#[test]
fn group_keys_are_ascending_and_distinct() {
    let spts = vec![in_group(5), in_group(1), in_group(3), in_group(1), in_group(5)];
    assert_eq!(group_keys(&spts), vec![1, 3, 5]);
}

#[test]
fn group_keys_ignore_document_order() {
    let forward = vec![in_group(0), in_group(2), in_group(9)];
    let backward = vec![in_group(9), in_group(2), in_group(0)];
    let mixed = vec![in_group(2), in_group(9), in_group(0), in_group(2)];
    assert_eq!(group_keys(&forward), vec![0, 2, 9]);
    assert_eq!(group_keys(&backward), vec![0, 2, 9]);
    assert_eq!(group_keys(&mixed), vec![0, 2, 9]);
}

#[test]
fn group_keys_need_not_be_contiguous() {
    let spts = vec![in_group(255), in_group(0), in_group(128)];
    assert_eq!(group_keys(&spts), vec![0, 128, 255]);
}

#[test]
fn group_keys_order_is_numeric() {
    let spts = vec![in_group(10), in_group(9), in_group(100), in_group(2)];
    assert_eq!(group_keys(&spts), vec![2, 9, 10, 100]);
}

#[test]
fn every_group_in_use() {
    let spts: Vec<SPT> = (0..=u8::MAX).rev().map(in_group).collect();
    let keys = group_keys(&spts);
    assert_eq!(keys, (0..=u8::MAX).collect::<Vec<u8>>());
}
