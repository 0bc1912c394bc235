use wasabi::aws::dynamodb::client::{
    AttributeValue, DynamoClient, ItemBuilder, TablePlan, TableProbe, TableStatus,
    MAX_STATUS_POLLS,
};
use wasabi::text_map::TextMap;
use wasabi::web::error::Error;

fn client() -> DynamoClient {
    DynamoClient { table_prefix: "myapp-prod".to_string() }
}

#[test]
fn effective_table_names() {
    assert_eq!(client().effective_name("users"), "myapp-prod-users");
    assert_ne!(client().effective_name("users"), client().effective_name("user-s"));
}

#[test]
fn tables_are_created_where_they_are_missing() {
    let client = client();
    assert!(client.does_table_exist("users", TableProbe::Found).unwrap());
    assert!(!client.does_table_exist("users", TableProbe::NotFound).unwrap());
    let failed = TableProbe::Failed(Error::new("denied"));
    assert_eq!(
        client.does_table_exist("users", failed).unwrap_err().full_message(),
        "Cannot access DynamoDB table 'myapp-prod-users': denied"
    );
    assert!(matches!(client.create_table("users", TableProbe::Found), Ok(TablePlan::Done)));
    match client.create_table("users", TableProbe::NotFound) {
        Ok(TablePlan::Create(name)) => assert_eq!(name, "myapp-prod-users"),
        _ => panic!("the table is not created"),
    }
    assert_eq!(
        client.request_failed("users", Error::new("x")).full_message(),
        "Faild to build proper create table request for: myapp-prod-users: x"
    );
    assert_eq!(
        client.creation_failed("users", Error::new("x")).full_message(),
        "Failed to create DynamoDB table 'myapp-prod-users': x"
    );
}

#[test]
fn the_wait_for_a_table_has_an_end() {
    let client = client();
    let mut wait = client.wait_until_table_becomes_active(&client.effective_name("users"));
    for _ in 0..MAX_STATUS_POLLS {
        assert!(wait.begin_poll().is_ok());
        assert!(!wait.polled(TableStatus::NotActive).unwrap());
    }
    assert!(wait.polled(TableStatus::Active).unwrap());
    assert_eq!(
        wait.begin_poll().unwrap_err().message(),
        "Table 'myapp-prod-myapp-prod-users' did not become ACTIVE in time"
    );
    assert!(wait.begin_poll().is_err());
    assert_eq!(
        wait.polled(TableStatus::Failed(Error::new("x"))).unwrap_err().full_message(),
        "Failed to check table status of 'myapp-prod-myapp-prod-users': x"
    );
}

#[test]
fn items_get_further_attributes() {
    let mut item: TextMap<AttributeValue<u8>> = TextMap::new();
    item.insert("n".to_string(), AttributeValue::Other(7));
    item.insert("s".to_string(), AttributeValue::Other(8));
    let mut builder = match ItemBuilder::from_entity(Ok(item)) {
        Ok(builder) => builder,
        Err(_) => panic!("no builder"),
    };
    builder.add_str("s", "text");
    builder.add_str("PK", "user#123");
    let item = builder.build();
    assert_eq!(item.len(), 3);
    assert!(matches!(item.get("n"), Some(AttributeValue::Other(7))));
    assert!(matches!(item.get("s"), Some(AttributeValue::S(s)) if s == "text"));
    assert!(matches!(item.get("PK"), Some(AttributeValue::S(s)) if s == "user#123"));

    match ItemBuilder::<u8>::from_entity(Err(Error::new("x"))) {
        Err(err) => assert_eq!(
            err.full_message(),
            "Error serializing entity into DynamoDB item: x"
        ),
        Ok(_) => panic!("a failure was lost"),
    }
}
