use baan::triggers::TriggerCommands;

#[test]
fn names_are_distinct_whatever_their_letter_case() {
    let mut triggers = TriggerCommands::new();
    assert!(triggers.insert("greet".to_string(), vec!["echo".to_string()]));
    assert!(!triggers.insert("GREET".to_string(), vec!["other".to_string()]));
    assert!(triggers.insert("date".to_string(), Vec::new()));
    assert_eq!(triggers.get("greet").unwrap(), &["echo"]);
    assert!(triggers.get("GREET").is_none());
    assert_eq!(triggers.find("GrEeT").unwrap(), &["echo"]);
    assert!(triggers.find("greets").is_none());
    assert!(triggers.get("date").unwrap().is_empty());
}
