use rainstash::RiskClass;
use rainstash::RiskItem;

fn sample_item() -> RiskItem {
    RiskItem {
        name: String::from("Test Item"),
        description: String::from("A test item."),
        embryo: Some(String::from("Does something")),
        stack: None,
        unlock: Some(String::from("Beat a level")),
        drop: None,
        has_video: Some(true),
        max_stacks: Some(5),
        item_class: RiskClass::White,
    }
}

fn bare_item() -> RiskItem {
    RiskItem {
        name: String::from("Bare Item"),
        description: String::from("Nothing optional."),
        embryo: None,
        stack: None,
        unlock: None,
        drop: None,
        has_video: None,
        max_stacks: None,
        item_class: RiskClass::NoClass,
    }
}

#[test]
fn class_to_string_names_every_class() {
    assert_eq!(RiskClass::White.class_to_string(), "White");
    assert_eq!(RiskClass::Green.class_to_string(), "Green");
    assert_eq!(RiskClass::Red.class_to_string(), "Red");
    assert_eq!(RiskClass::Yellow.class_to_string(), "Yellow");
    assert_eq!(RiskClass::Orange.class_to_string(), "Orange");
    assert_eq!(RiskClass::Purple.class_to_string(), "Purple");
    assert_eq!(RiskClass::Grey.class_to_string(), "Grey");
    assert_eq!(RiskClass::NoClass.class_to_string(), "None");
}

#[test]
fn from_class_name_parses_manifest_strings() {
    assert_eq!(RiskClass::from_class_name("white"), RiskClass::White);
    assert_eq!(RiskClass::from_class_name("green"), RiskClass::Green);
    assert_eq!(RiskClass::from_class_name("red"), RiskClass::Red);
    assert_eq!(RiskClass::from_class_name("yellow"), RiskClass::Yellow);
    assert_eq!(RiskClass::from_class_name("orange"), RiskClass::Orange);
    assert_eq!(RiskClass::from_class_name("purple"), RiskClass::Purple);
    assert_eq!(RiskClass::from_class_name("misc"), RiskClass::Grey);
}

#[test]
fn from_class_name_is_case_sensitive_and_total() {
    assert_eq!(RiskClass::from_class_name("WHITE"), RiskClass::NoClass);
    assert_eq!(RiskClass::from_class_name("grey"), RiskClass::NoClass);
    assert_eq!(RiskClass::from_class_name(""), RiskClass::NoClass);
}

#[test]
fn accessors_return_present_values() {
    let item = sample_item();
    assert_eq!(item.match_embryo(), "Does something");
    assert_eq!(item.match_unlock(), "Beat a level");
    assert!(item.match_video());
    assert_eq!(item.match_stack_size(), 5);
}

#[test]
fn accessors_fall_back_when_fields_are_missing() {
    let item = bare_item();
    assert_eq!(item.match_embryo(), "N/A");
    assert_eq!(item.match_stack(), "N/A");
    assert_eq!(item.match_unlock(), "N/A");
    assert_eq!(item.match_drop(), "N/A");
    assert!(!item.match_video());
    assert_eq!(item.match_stack_size(), 0);
}

#[test]
fn explicit_false_video_flag_reads_false() {
    let mut item = sample_item();
    item.has_video = Some(false);
    assert!(!item.match_video());
}
