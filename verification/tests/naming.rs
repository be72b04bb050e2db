use ethabi::naming::{field_label, field_names, input_label, input_names};
use ethabi::{Event, EventParam, Function, Param, ParamType};

#[test]
fn input_label_is_snake_case() {
    assert_eq!(input_label("helloWorld", 0), "hello_world");
    assert_eq!(input_label("to", 7), "to");
    assert_eq!(input_label("_spender", 0), "spender");
    assert_eq!(input_label("XMLHttpRequest", 1), "xml_http_request");
}

#[test]
fn input_label_of_an_unnamed_input_is_numbered() {
    assert_eq!(input_label("", 0), "param0");
    assert_eq!(input_label("", 3), "param3");
    assert_eq!(input_label("", 120), "param120");
}

#[test]
fn field_label_of_an_unnamed_parameter_tells_where_it_is_kept() {
    assert_eq!(field_label("", 2, true), "topic2");
    assert_eq!(field_label("", 12, false), "param12");
    assert_eq!(field_label("tokenId", 2, true), "token_id");
    assert_eq!(field_label("tokenId", 2, false), "token_id");
}

#[test]
fn names_of_inputs() {
    let params = [
        Param { name: "".to_owned(), kind: ParamType::Bool },
        Param { name: "newOwner".to_owned(), kind: ParamType::Address },
        Param { name: "".to_owned(), kind: ParamType::Bytes },
    ];
    assert_eq!(input_names(&params), vec!["param0", "new_owner", "param2"]);
    assert_eq!(input_names(&[]), Vec::<String>::new());
    let f = Function {
        name: "setOwner".to_owned(),
        inputs: params.to_vec(),
        outputs: vec![],
        constant: false,
    };
    assert_eq!(f.input_names(), vec!["param0", "new_owner", "param2"]);
}

#[test]
fn names_of_event_parameters() {
    let inputs = vec![
        EventParam { name: "".to_owned(), kind: ParamType::Address, indexed: true },
        EventParam { name: "".to_owned(), kind: ParamType::Uint(256), indexed: false },
        EventParam { name: "blockNumber".to_owned(), kind: ParamType::Uint(256), indexed: true },
    ];
    assert_eq!(field_names(&inputs), vec!["topic0", "param1", "block_number"]);
    let event = Event { name: "Seen".to_owned(), inputs, anonymous: false };
    assert_eq!(event.field_names(), vec!["topic0", "param1", "block_number"]);
}
