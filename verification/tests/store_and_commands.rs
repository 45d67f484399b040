use recipe_node::command::{apply_command, parse_command, storage_failure_reply, Command};
use recipe_node::record::Record;
use recipe_node::store::{append_recipe, list_public, max_record_id, set_public, StoreError};

fn create_line(payload: &str) -> String {
    format!("create r {}", payload)
}

#[test]
fn scenario_create_then_private_listing() {
    let mut records: Vec<Record> = Vec::new();
    let cmd = parse_command(&create_line("Soup|Water,Salt|Boil"));
    let reply = apply_command(&mut records, &cmd);
    assert_eq!(reply, "{\"status\":\"Recipe created\"}");
    assert_eq!(records.len(), 1);
    assert_eq!(records[0].id, 1);
    assert_eq!(records[0].name, "Soup");
    assert_eq!(records[0].ingredients, "Water,Salt");
    assert_eq!(records[0].instructions, "Boil");
    assert!(!records[0].public);

    let ls = parse_command("ls r all");
    let reply = apply_command(&mut records, &ls);
    assert_eq!(reply, "[]");
}

#[test]
fn scenario_publish_then_public_listing() {
    let mut records: Vec<Record> = Vec::new();
    let create = parse_command(&create_line("Soup|Water,Salt|Boil"));
    apply_command(&mut records, &create);

    let publish = parse_command("publish r 1");
    let reply = apply_command(&mut records, &publish);
    assert_eq!(reply, "{\"status\":\"Recipe published\"}");

    let ls = parse_command("ls r all");
    let reply = apply_command(&mut records, &ls);
    assert_eq!(
        reply,
        "[{\"id\":1,\"name\":\"Soup\",\"ingredients\":\"Water,Salt\",\"instructions\":\"Boil\",\"public\":true}]"
    );
}

#[test]
fn scenario_publish_missing_id_fails_and_changes_nothing() {
    let mut records: Vec<Record> = Vec::new();
    let create = parse_command(&create_line("Soup|Water,Salt|Boil"));
    apply_command(&mut records, &create);

    let publish = parse_command("publish r 999");
    let reply = apply_command(&mut records, &publish);
    assert_eq!(reply, "{\"error\":\"Recipe not found\"}");
    assert_eq!(records.len(), 1);
    assert!(!records[0].public);
}

#[test]
fn scenario_malformed_command_gets_error_reply() {
    let mut records: Vec<Record> = Vec::new();
    let cmd = parse_command("frobnicate");
    let reply = apply_command(&mut records, &cmd);
    assert_eq!(reply, "{\"error\":\"Invalid command\"}");
    assert!(records.is_empty());
}

#[test]
fn three_appends_yield_three_distinct_ids() {
    let mut records: Vec<Record> = Vec::new();
    for payload in ["Soup|Water|Boil", "Tea|Leaves|Steep", "Rice|Rice|Simmer"] {
        let cmd = parse_command(&create_line(payload));
        let reply = apply_command(&mut records, &cmd);
        assert_eq!(reply, "{\"status\":\"Recipe created\"}");
    }
    assert_eq!(records.len(), 3);
    let ids: Vec<u64> = records.iter().map(|r| r.id).collect();
    assert_eq!(ids, vec![1, 2, 3]);
    for i in 0..ids.len() {
        for j in 0..i {
            assert_ne!(ids[i], ids[j]);
        }
    }
}

#[test]
fn listing_twice_without_mutation_is_identical() {
    let mut records: Vec<Record> = Vec::new();
    for payload in ["Soup|Water|Boil", "Tea|Leaves|Steep"] {
        let cmd = parse_command(&create_line(payload));
        apply_command(&mut records, &cmd);
    }
    let publish = parse_command("publish r 2");
    apply_command(&mut records, &publish);

    let first = list_public(&records);
    let second = list_public(&records);
    assert_eq!(first, second);
    assert_eq!(first.len(), 1);
    assert_eq!(first[0].name, "Tea");
}

#[test]
fn publish_is_monotonic_across_commands() {
    let mut records: Vec<Record> = Vec::new();
    for payload in ["Soup|Water|Boil", "Tea|Leaves|Steep"] {
        let cmd = parse_command(&create_line(payload));
        apply_command(&mut records, &cmd);
    }
    apply_command(&mut records, &parse_command("publish r 1"));
    assert!(records[0].public);

    apply_command(&mut records, &parse_command("publish r 2"));
    apply_command(&mut records, &parse_command(&create_line("Rice|Rice|Simmer")));
    apply_command(&mut records, &parse_command("ls r all"));
    apply_command(&mut records, &parse_command("frobnicate"));
    assert!(records[0].public);
    assert!(records[1].public);
}

#[test]
fn store_primitives_assign_and_flip() {
    let mut records: Vec<Record> = Vec::new();
    let id = append_recipe(
        &mut records,
        "Soup".to_owned(),
        "Water".to_owned(),
        "Boil".to_owned(),
    );
    assert_eq!(id, 1);
    assert_eq!(max_record_id(&records), 1);
    assert_eq!(set_public(&mut records, 1), Ok(()));
    assert!(records[0].public);
    assert_eq!(set_public(&mut records, 7), Err(StoreError::NotFound));
}

#[test]
fn malformed_arguments_become_invalid_commands() {
    assert!(matches!(parse_command("publish r abc"), Command::Invalid));
    assert!(matches!(parse_command("publish r "), Command::Invalid));
    assert!(matches!(parse_command("publish r 1 2"), Command::Invalid));
    assert!(matches!(parse_command("create r NoPipesHere"), Command::Invalid));
    assert!(matches!(parse_command("create r a|b"), Command::Invalid));
    assert!(matches!(parse_command("create r a|b|c|d"), Command::Invalid));
    assert!(matches!(parse_command("ls r some"), Command::Invalid));
    assert!(matches!(parse_command(""), Command::Invalid));
    assert!(matches!(parse_command("ls p"), Command::ListPeers));
}

#[test]
fn storage_failure_reply_text() {
    assert_eq!(storage_failure_reply(), "{\"error\":\"Storage failure\"}");
}

#[test]
fn tokens_are_separated_by_single_spaces() {
    assert!(matches!(parse_command("ls  r all"), Command::Invalid));
    assert!(matches!(parse_command(" ls r all"), Command::Invalid));
    assert!(matches!(parse_command("ls r all "), Command::Invalid));
}

#[test]
fn create_payload_is_the_rest_of_the_line() {
    match parse_command("create r Full English|Eggs, Beans|Fry it all") {
        Command::Create { name, ingredients, instructions } => {
            assert_eq!(name, "Full English");
            assert_eq!(ingredients, "Eggs, Beans");
            assert_eq!(instructions, "Fry it all");
        },
        _ => panic!("expected a create command"),
    }
}

#[test]
fn listing_peers_is_answered_not_silent() {
    let mut records: Vec<Record> = Vec::new();
    let reply = apply_command(&mut records, &parse_command("ls p"));
    assert_eq!(reply, "{\"error\":\"Not implemented\"}");
}
