use cder::{
    resolve_tags, DatabaseSeeder, Environment, ResolveError, SeedError, StructLoader, TextMap,
};

#[test]
fn database_seeder_test_database_seeder_new() {
    let mut seeder = DatabaseSeeder::new();
    seeder.set_dir("fixtures");
    assert!(seeder.filenames.is_empty());
    assert_eq!(seeder.base_dir, "fixtures".to_string());
}

#[test]
fn database_seeder_async_test_database_seeder_new() {
    let mut seeder = DatabaseSeeder::new();
    seeder.set_dir("fixtures");
    assert!(seeder.filenames.is_empty());
    assert_eq!(seeder.base_dir, "fixtures".to_string());
}

#[test]
fn test_struct_loader_new() {
    let loader = StructLoader::<String>::new("items.yml", Some("fixtures"));
    assert_eq!(loader.filename, "items.yml");
    assert_eq!(loader.base_dir, Some("fixtures".to_string()));
}

#[test]
fn seeder_default_is_empty() {
    let seeder = DatabaseSeeder::default();
    assert!(seeder.filenames.is_empty());
    assert_eq!(seeder.base_dir, "");
    assert_eq!(seeder.name_resolver().len(), 0);
}

#[test]
fn later_registration_overwrites() {
    let env = Environment::new();
    let mut seeder = DatabaseSeeder::new();
    seeder.register("dog".to_string(), "1".to_string());
    assert_eq!(seeder.resolve("id: ${{REF(dog)}}", &env).unwrap(), "id: 1");
    seeder.register("dog".to_string(), "2".to_string());
    assert_eq!(seeder.resolve("id: ${{REF(dog)}}", &env).unwrap(), "id: 2");
    assert_eq!(seeder.name_resolver().len(), 1);
}

#[test]
fn seeder_resolves_against_registered_ids() {
    let mut env = TextMap::new();
    env.insert("EMAIL".to_string(), "dev@example.com".to_string());
    let mut seeder = DatabaseSeeder::new();
    assert_eq!(
        seeder.resolve("customer_id: ${{REF(Alice)}}", &env),
        Err(ResolveError::UnresolvedReference("Alice".to_string()))
    );
    seeder.register("Alice".to_string(), "81".to_string());
    assert_eq!(
        seeder.resolve("customer_id: ${{REF(Alice)}} mail: ${{ENV(EMAIL)}}", &env).unwrap(),
        "customer_id: 81 mail: dev@example.com"
    );
    assert_eq!(
        resolve_tags("${{REF(Alice)}}", seeder.name_resolver(), &env).unwrap(),
        "81"
    );
}

#[test]
fn seeder_records_filenames_in_order() {
    let mut seeder = DatabaseSeeder::new();
    seeder.add_filename("items.yml");
    seeder.add_filename("orders.yml");
    assert_eq!(seeder.filenames, vec!["items.yml".to_string(), "orders.yml".to_string()]);
}

#[test]
fn loader_refuses_second_load() {
    let mut loader = StructLoader::<i64>::new("items.yml", None);
    let mut first = cder::Dict::<i64>::new();
    first.insert("Melon".to_string(), 500);
    assert_eq!(loader.set_records(first), Ok(()));
    let second = cder::Dict::<i64>::new();
    assert_eq!(
        loader.set_records(second),
        Err(SeedError::AlreadyLoaded("items.yml".to_string()))
    );
    assert_eq!(loader.get("Melon"), Ok(&500));
}

#[test]
fn loader_queries() {
    let mut loader = StructLoader::<i64>::new("items.yml", Some("fixtures"));
    assert_eq!(loader.get("Melon"), Err(SeedError::NotLoaded("items.yml".to_string())));
    assert!(loader.get_all_records().is_err());
    assert!(!loader.is_loaded());
    let mut records = cder::Dict::<i64>::new();
    records.insert("Melon".to_string(), 500);
    records.insert("Apple".to_string(), 100);
    loader.set_records(records).unwrap();
    assert!(loader.is_loaded());
    assert_eq!(loader.get("Apple"), Ok(&100));
    assert_eq!(
        loader.get("Kiwi"),
        Err(SeedError::RecordNotFound("items.yml".to_string(), "Kiwi".to_string()))
    );
    assert_eq!(loader.get_all_records().unwrap().len(), 2);
}

#[test]
fn loader_resolve_reports_file() {
    let env = Environment::new();
    let deps = TextMap::new();
    let mut loader = StructLoader::<i64>::new("orders.yml", None);
    assert_eq!(
        loader.resolve("id: ${{REF(x)}}", &deps, &env),
        Err(SeedError::Tag(
            "orders.yml".to_string(),
            ResolveError::UnresolvedReference("x".to_string())
        ))
    );
    assert_eq!(loader.resolve("id: 1", &deps, &env), Ok("id: 1".to_string()));
    loader.set_records(cder::Dict::<i64>::new()).unwrap();
    assert_eq!(
        loader.resolve("id: 1", &deps, &env),
        Err(SeedError::AlreadyLoaded("orders.yml".to_string()))
    );
}
