use rustpress::definition::{create_statement, statement_text, DefinitionError, EntityDefinition, FieldDefinition};
use rustpress::model::RestError;
use rustpress::reply::{entity_reply, malformed_definition, mutation_reply, rejected_definition};
use rustpress::routes::{build, Handler, Method, RouteError, RouteTable};
use rustpress::supervisor::{ControlMessage, Directive, StartError, StoreError, Supervisor};

fn field(name: &str, ty: &str) -> FieldDefinition {
    FieldDefinition { name: name.to_string(), field_type: ty.to_string() }
}

fn names(list: &[&str]) -> Vec<String> {
    list.iter().map(|s| s.to_string()).collect()
}

fn routes_of(t: &RouteTable) -> Vec<(String, Method)> {
    let mut v: Vec<(String, Method)> = (0..t.len()).map(|i| (t.binding(i).path.clone(), t.binding(i).method)).collect();
    v.sort_by(|a, b| a.0.cmp(&b.0));
    v
}

#[test]
fn post_definition_statement_and_route() {
    let def = EntityDefinition {
        name: "Post".to_string(),
        fields: vec![field("title", "TEXT"), field("body", "TEXT")],
    };
    let st = create_statement(&def).unwrap();
    assert_eq!(st, "CREATE TABLE post (\ntitle\tTEXT,\nbody\tTEXT\n)");

    let reply = mutation_reply(st.clone(), Ok(()));
    assert_eq!(reply.status, 200);
    assert_eq!(reply.body, st);
    assert!(reply.restart);

    let mut sup = Supervisor::new();
    assert!(matches!(sup.receive(ControlMessage::Start), Directive::Rebuild));
    let first = sup.rebuilt(Ok(names(&["users"]))).unwrap();
    assert_eq!(first.routes.lookup(Method::Post, &"/post".to_string()), None);
    match sup.receive(ControlMessage::Restart) {
        Directive::CancelThenSend { cancel, send } => {
            assert_eq!(cancel, vec![first.listener]);
            assert_eq!(send, ControlMessage::Start);
        }
        Directive::Rebuild => panic!("a restart must cancel"),
    }
    assert!(matches!(sup.receive(ControlMessage::Start), Directive::Rebuild));
    let second = sup.rebuilt(Ok(names(&["users", "post"]))).unwrap();
    let i = second.routes.lookup(Method::Post, &"/post".to_string()).unwrap();
    match &second.routes.binding(i).handler {
        Handler::Entity(n) => assert_eq!(n, "post"),
        Handler::Types => panic!("wrong handler"),
    }
    assert_eq!(entity_reply().status, 200);
}

#[test]
fn users_and_post_routes() {
    let t = build(&names(&["users", "post"])).unwrap();
    assert_eq!(t.len(), 3);
    let got = routes_of(&t);
    assert_eq!(
        got,
        vec![
            ("/post".to_string(), Method::Post),
            ("/types".to_string(), Method::Post),
            ("/users".to_string(), Method::Post),
        ]
    );
    assert!(matches!(t.binding(0).handler, Handler::Types));
    assert_eq!(t.binding(0).path, "/types");
}

#[test]
fn build_is_independent_of_order_and_repetition() {
    let a = build(&names(&["users", "post", "comment"])).unwrap();
    let b = build(&names(&["comment", "post", "users", "post"])).unwrap();
    assert_eq!(routes_of(&a), routes_of(&b));
    assert_eq!(a.len(), 4);
    let c = build(&names(&["users", "post", "comment"])).unwrap();
    assert_eq!(routes_of(&a), routes_of(&c));
}

#[test]
fn build_with_no_entities_keeps_types_route() {
    let t = build(&Vec::new()).unwrap();
    assert_eq!(t.len(), 1);
    assert_eq!(t.binding(0).path, "/types");
    assert_eq!(t.lookup(Method::Post, &"/types".to_string()), Some(0));
    assert_eq!(t.lookup(Method::Get, &"/types".to_string()), None);
}

#[test]
fn build_refuses_entity_named_types() {
    assert!(matches!(build(&names(&["users", "types"])), Err(RouteError::ReservedName)));
}

#[test]
fn statement_lowercases_name_and_keeps_field_order() {
    let def = EntityDefinition {
        name: "BlogEntry".to_string(),
        fields: vec![field("z", "INTEGER"), field("a", "TEXT NOT NULL"), field("m", "REAL")],
    };
    let st = create_statement(&def).unwrap();
    assert_eq!(st, "CREATE TABLE blogentry (\nz\tINTEGER,\na\tTEXT NOT NULL,\nm\tREAL\n)");
    assert_eq!(st.matches(',').count(), 2);
}

#[test]
fn statement_with_one_field_has_no_comma() {
    let st = statement_text("item", &vec![field("id", "INTEGER")]);
    assert_eq!(st, "CREATE TABLE item (\nid\tINTEGER\n)");
}

#[test]
fn definition_errors() {
    let no_name = EntityDefinition { name: String::new(), fields: vec![field("a", "TEXT")] };
    assert_eq!(create_statement(&no_name), Err(DefinitionError::MissingName));
    let no_fields = EntityDefinition { name: "post".to_string(), fields: Vec::new() };
    assert_eq!(create_statement(&no_fields), Err(DefinitionError::NoFields));
    let dup = EntityDefinition {
        name: "post".to_string(),
        fields: vec![field("a", "TEXT"), field("b", "TEXT"), field("a", "INTEGER")],
    };
    assert_eq!(create_statement(&dup), Err(DefinitionError::DuplicateField));
    let reserved = EntityDefinition { name: "Types".to_string(), fields: vec![field("a", "TEXT")] };
    assert_eq!(create_statement(&reserved), Err(DefinitionError::ReservedName));
}

#[test]
fn failed_definitions_never_restart() {
    let r = mutation_reply("CREATE TABLE post (\na\tTEXT\n)".to_string(), Err(StoreError { message: "table post already exists".to_string() }));
    assert_eq!(r.status, 500);
    assert_eq!(r.body, "table post already exists");
    assert!(!r.restart);
    let r = rejected_definition(DefinitionError::DuplicateField);
    assert_eq!(r.status, 400);
    assert_eq!(r.body, "a field name is given twice");
    assert!(!r.restart);
    let r = malformed_definition();
    assert_eq!(r.status, 400);
    assert!(!r.restart);
}

#[test]
fn restart_empties_and_sends_one_start() {
    let mut sup = Supervisor::new();
    sup.receive(ControlMessage::Start);
    let a = sup.rebuilt(Ok(names(&["users"]))).unwrap();
    sup.receive(ControlMessage::Start);
    let b = sup.rebuilt(Ok(names(&["users"]))).unwrap();
    assert_ne!(a.listener, b.listener);
    assert_eq!(sup.live(), &vec![a.listener, b.listener]);
    match sup.receive(ControlMessage::Restart) {
        Directive::CancelThenSend { cancel, send } => {
            assert_eq!(cancel, vec![a.listener, b.listener]);
            assert_eq!(send, ControlMessage::Start);
        }
        Directive::Rebuild => panic!("a restart must cancel"),
    }
    assert!(sup.live().is_empty());
    assert!(matches!(sup.receive(ControlMessage::Start), Directive::Rebuild));
    assert!(sup.live().is_empty());
    let c = sup.rebuilt(Ok(names(&["users"]))).unwrap();
    assert_eq!(sup.live(), &vec![c.listener]);
}

#[test]
fn running_listener_survives_mutation_and_failed_rebuild() {
    let mut sup = Supervisor::new();
    sup.receive(ControlMessage::Start);
    let a = sup.rebuilt(Ok(names(&["users"]))).unwrap();
    // a definition being applied changes nothing in the supervisor
    let def = EntityDefinition { name: "post".to_string(), fields: vec![field("title", "TEXT")] };
    let _ = create_statement(&def).unwrap();
    assert_eq!(sup.live(), &vec![a.listener]);
    assert!(a.routes.lookup(Method::Post, &"/users".to_string()).is_some());
    // a rebuild that fails leaves the running listener in place
    let r = sup.rebuilt(Err(StoreError { message: "catalog unavailable".to_string() }));
    assert!(matches!(r, Err(StartError::Store(_))));
    let r = sup.rebuilt(Ok(names(&["types"])));
    assert!(matches!(r, Err(StartError::Routes(RouteError::ReservedName))));
    assert_eq!(sup.live(), &vec![a.listener]);
}

#[test]
fn create_failure_errors() {
    let e = RestError::for_create_failure(true);
    assert_eq!(e.code, 409);
    assert_eq!(e.message, "Username already exists");
    let e = RestError::for_create_failure(false);
    assert_eq!(e.code, 500);
}
