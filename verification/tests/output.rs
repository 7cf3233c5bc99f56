use elan_haptune::command::{emit, human, respond, Command, Output};
use elan_haptune::device::Device;
use elan_haptune::document::Data;
use elan_haptune::error::Error;
use elan_haptune::json::Json;

fn value(json: &Json) -> serde_json::Value {
    match json {
        Json::Null => serde_json::Value::Null,
        Json::Bool(yes) => serde_json::Value::from(*yes),
        Json::Number(n) => serde_json::Value::from(*n),
        Json::Text(text) => serde_json::Value::from(text.as_str()),
        Json::List(items) => serde_json::Value::Array(items.iter().map(value).collect()),
        Json::Object(members) => serde_json::Value::Object(
            members.iter().map(|m| (m.key.clone(), value(&m.value))).collect(),
        ),
    }
}

fn shown(output: &Output) -> String {
    match output {
        Output::Document(json) => value(json).to_string(),
        Output::Words(text) => text.clone(),
        Output::Silence => String::new(),
    }
}

fn device() -> Device {
    Device {
        path: "/dev/hidraw3".to_string(),
        selector: "sysfs:/devices/p".to_string(),
        name: "ELAN2703:00 04F3:323B".to_string(),
        bus: 24,
        vendor_id: "04f3".to_string(),
        product_id: "323b".to_string(),
        physical_path: "/sys/devices/p".to_string(),
        support: "identity_check_required",
        sys_device: "/sys/devices/p/q".to_string(),
        devnum: 7,
    }
}

#[test]
fn an_empty_list_is_one_object() {
    let emission = emit(true, "list", &Some(Data::Devices(vec![])), &None);
    assert_eq!(emission.exit_code, 0);
    assert!(emission.diagnostic.is_none());
    assert_eq!(
        shown(&emission.output),
        "{\"schema_version\":1,\"command\":\"list\",\"ok\":true,\"data\":{\"devices\":[]},\"error\":null}"
    );
    assert_eq!(human(&Data::Devices(vec![])), "No hidraw devices found.\n");
}

#[test]
fn a_listed_device_shows_what_callers_need_and_no_more() {
    let emission = emit(true, "list", &Some(Data::Devices(vec![device()])), &None);
    assert_eq!(
        shown(&emission.output),
        "{\"schema_version\":1,\"command\":\"list\",\"ok\":true,\"data\":{\"devices\":[{\
\"path\":\"/dev/hidraw3\",\"selector\":\"sysfs:/devices/p\",\"name\":\"ELAN2703:00 04F3:323B\",\
\"bus\":24,\"vendor_id\":\"04f3\",\"product_id\":\"323b\",\"physical_path\":\"/sys/devices/p\",\
\"support\":\"identity_check_required\"}]},\"error\":null}"
    );
    assert_eq!(
        human(&Data::Devices(vec![device(), device()])),
        "/dev/hidraw3  04f3:323b  ELAN2703:00 04F3:323B  [identity_check_required]\n  sysfs:/devices/p\n\
/dev/hidraw3  04f3:323b  ELAN2703:00 04F3:323B  [identity_check_required]\n  sysfs:/devices/p\n"
    );
}

#[test]
fn a_failure_without_data_is_null_in_json_and_silent_in_words() {
    let error = Some(Error::invalid("unexpected \"argument\"\n"));
    let emission = emit(true, "parse", &None, &error);
    assert_eq!(emission.exit_code, 2);
    assert_eq!(
        emission.diagnostic.as_deref(),
        Some("elan-haptune: invalid_request: unexpected \"argument\"\n")
    );
    assert_eq!(
        shown(&emission.output),
        "{\"schema_version\":1,\"command\":\"parse\",\"ok\":false,\"data\":null,\"error\":{\
\"kind\":\"invalid_request\",\"message\":\"unexpected \\\"argument\\\"\\n\",\"exit_code\":2}}"
    );
    assert!(matches!(emit(false, "parse", &None, &error).output, Output::Silence));
}

#[test]
fn exit_codes_are_those_of_the_failure() {
    for code in [1, 2, 3, 4, 5] {
        let command = Command::Get { device: None };
        let emission = respond(false, &command, Err(Error::new(code, "kind", "message")));
        assert_eq!(emission.exit_code, code);
        assert_eq!(emission.diagnostic.as_deref(), Some("elan-haptune: kind: message"));
        assert!(matches!(emission.output, Output::Silence));
    }
}

#[test]
fn commands_go_by_their_names() {
    assert_eq!(Command::List.name(), "list");
    assert_eq!(Command::Get { device: None }.name(), "get");
    let selector = Some("sysfs:/devices/p".to_string());
    let command = Command::Change {
        device: selector,
        dry_run: false,
        update: Default::default(),
    };
    assert_eq!(command.name(), "set");
    assert_eq!(command.selector(), Some("sysfs:/devices/p"));
    assert_eq!(Command::List.selector(), None);
}

#[test]
fn errors_carry_their_context() {
    let error = Error::protocol("bad echo").context("query response 0x03a2");
    assert_eq!(error.kind, "protocol");
    assert_eq!(error.message, "query response 0x03a2: bad echo");
    assert_eq!(error.exit_code, 1);
    assert_eq!(Error::unsupported("x").exit_code, 5);
}
