use elebox::comm::Handler;
use elebox::db::DbManufacturer;
use elebox::errors::EleboxError;
use elebox::manufacturer::{Manufacturer, ManufacturerHandler};
use elebox::mem_db::MemDatabase;

fn fresh_handler() -> ManufacturerHandler<MemDatabase<DbManufacturer>> {
    ManufacturerHandler { db: MemDatabase::new() }
}

fn seed(handler: &mut ManufacturerHandler<MemDatabase<DbManufacturer>>, id: &str, name: &str, alias: &str, url: &str) {
    handler
        .db
        .add_with_id(
            id.to_string(),
            DbManufacturer {
                name: name.to_string(),
                alias: alias.to_string(),
                url: url.to_string(),
            },
        )
        .expect("seed id must be fresh");
}

fn test_add_not_existing_value(name: String, alias: Option<String>, url: Option<String>) {
    let mfr = Manufacturer::new(&name.clone(), alias.clone().as_deref(), url.clone().as_deref());

    let mut handler = fresh_handler();
    let result = handler.add(&mfr);
    assert!(result.is_ok());

    let stored = handler.get(&name).expect("added record must be found");
    assert_eq!(stored.name, name);
    assert_eq!(stored.alias, alias);
    assert_eq!(stored.url, url);
}

#[test]
fn test_add_no_existing() {
    const SYMBOL: &str = r"_=+-!@#$%^&*()|{}/\'`~";

    let test_cases = vec![
        ("Test1", Some("TestAlias"), Some("https://test.com")),
        ("Test2", None, Some("https://test.com")),
        ("Test3", Some("TestAlias"), None),
        ("Test4", None, None),
        ("Test Space", Some("Test Alias"), Some("https://test.com")),
        (SYMBOL, Some(SYMBOL), Some(SYMBOL)),
        ("中文名稱", Some("中文別名"), Some("中文網址")),
    ];

    for (name, alias, url) in test_cases {
        test_add_not_existing_value(
            name.to_string(),
            alias.map(|s| s.to_string()),
            url.map(|s| s.to_string()),
        );
    }
}

#[test]
fn test_delete_existing() {
    const NAME: &str = "TestName";
    const ID: &str = "TestID";

    let mut handler = fresh_handler();
    seed(&mut handler, ID, NAME, "", "");

    let result = handler.delete(NAME);
    assert!(result.is_ok());
}

#[test]
fn test_get_existing() {
    const ID: &str = "TestID";
    const NAME: &str = "TestName";
    const ALIAS: &str = "TestAlias";
    const URL: &str = "https://test.com";

    let mut handler = fresh_handler();
    seed(&mut handler, ID, NAME, ALIAS, URL);

    let result = handler.get(NAME);

    let mfr = result.expect("Expected OK");
    assert_eq!(mfr.name, NAME);
    assert_eq!(mfr.alias.as_deref(), Some(ALIAS));
    assert_eq!(mfr.url.as_deref(), Some(URL));
}

#[test]
fn test_list_existing() {
    const NAME: &str = "TestName";
    const ALIAS: &str = "TestAlias";
    const URL: &str = "https://test.com";
    const TEST_NUMBER: u16 = 10;

    let mut handler = fresh_handler();
    for i in 0..TEST_NUMBER {
        seed(
            &mut handler,
            &format!("id{i}"),
            &format!("{NAME}{i}"),
            &format!("{ALIAS}{i}"),
            &format!("{URL}{i}"),
        );
    }

    let result = handler.list();

    let mfrs = result.expect("Expected OK");
    for (i, m) in mfrs.iter().enumerate() {
        assert_eq!(m.name, format!("{NAME}{i}"));
        assert_eq!(m.alias, Some(format!("{ALIAS}{i}")));
        assert_eq!(m.url, Some(format!("{URL}{i}")));
    }
}

/// Update item, name does not change
#[test]
fn test_update_not_existing() {
    const NAME: &str = "TestName";
    const ALIAS: &str = "TestAlias";
    const URL: &str = "https://test.com";
    const ID: &str = "TestID";

    let mut handler = fresh_handler();
    seed(&mut handler, ID, NAME, ALIAS, URL);

    let new_item = Manufacturer {
        name: NAME.to_string(),
        alias: Some(ALIAS.to_string()),
        url: Some(URL.to_string()),
    };

    let result = handler.update(NAME, &new_item);
    assert!(result.is_ok());
}

/// Update item, name changed and not duplicate
#[test]
fn test_update_new_name_not_existing() {
    const ORI_NAME: &str = "TestNameOri";
    const NEW_NAME: &str = "TestNameNew";
    const ALIAS: &str = "TestAlias";
    const URL: &str = "https://test.com";
    const ID: &str = "TestID";

    let mut handler = fresh_handler();
    seed(&mut handler, ID, ORI_NAME, ALIAS, URL);

    let new_item = Manufacturer {
        name: NEW_NAME.to_string(),
        alias: Some(ALIAS.to_string()),
        url: Some(URL.to_string()),
    };

    let result = handler.update(ORI_NAME, &new_item);
    assert!(result.is_ok());
}

/// Update item, name changed and duplicate
#[test]
fn test_update_new_name_existing() {
    const ORI_NAME: &str = "TestNameOri";
    const NEW_NAME: &str = "TestNameNew";
    const ALIAS: &str = "TestAlias";
    const URL: &str = "https://test.com";
    const ORI_ID: &str = "TestIDOri";
    const NEW_ID: &str = "TestIDNew";

    let mut handler = fresh_handler();
    seed(&mut handler, ORI_ID, ORI_NAME, "", "");
    seed(&mut handler, NEW_ID, NEW_NAME, "", "");

    let new_item = Manufacturer {
        name: NEW_NAME.to_string(),
        alias: Some(ALIAS.to_string()),
        url: Some(URL.to_string()),
    };

    let result = handler.update(ORI_NAME, &new_item);

    if let Err(EleboxError::AlreadyExists(_, _)) = result {
        // Ok
    } else {
        panic!("Expected AlreadyExists error")
    }
}

#[test]
fn test_to_db_item_some() {
    const NAME: &str = "TestName";
    const ALIAS: &str = "TestAlias";
    const URL: &str = "https://test.com";

    let item = Manufacturer {
        name: NAME.to_string(),
        alias: Some(ALIAS.to_string()),
        url: Some(URL.to_string()),
    };

    let handler = fresh_handler();
    let result = handler.to_db_item(&item);

    let db_item = result.expect("Expected OK");
    assert_eq!(db_item.name, NAME.to_string());
    assert_eq!(db_item.alias, ALIAS.to_string());
    assert_eq!(db_item.url, URL.to_string());
}

#[test]
fn test_to_db_item_none() {
    const NAME: &str = "TestName";
    const ALIAS: &str = "";
    const URL: &str = "";

    let item = Manufacturer {
        name: NAME.to_string(),
        alias: None,
        url: None,
    };

    let handler = fresh_handler();
    let result = handler.to_db_item(&item);

    let db_item = result.expect("Expected OK");
    assert_eq!(db_item.name, NAME.to_string());
    assert_eq!(db_item.alias, ALIAS.to_string());
    assert_eq!(db_item.url, URL.to_string());
}

#[test]
fn test_to_item_some() {
    const NAME: &str = "TestName";
    const ALIAS: &str = "TestAlias";
    const URL: &str = "https://test.com";

    let item = DbManufacturer {
        name: NAME.to_string(),
        alias: ALIAS.to_string(),
        url: URL.to_string(),
    };

    let handler = fresh_handler();
    let item = handler.to_item(&item);

    assert_eq!(item.name, NAME.to_string());
    assert_eq!(item.alias, Some(ALIAS.to_string()));
    assert_eq!(item.url, Some(URL.to_string()));
}

#[test]
fn test_to_item_none() {
    const NAME: &str = "TestName";

    let item = DbManufacturer {
        name: NAME.to_string(),
        alias: "".to_string(),
        url: "".to_string(),
    };

    let handler = fresh_handler();
    let item = handler.to_item(&item);

    assert_eq!(item.name, NAME.to_string());
    assert_eq!(item.alias, None);
    assert_eq!(item.url, None);
}
