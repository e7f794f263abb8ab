use yewchat::envelope::{
    MessageData, MsgTypes, WebSocketMessage, encode_envelope, encode_message_data, message_frame,
    parse_envelope_str, parse_message_data_str, register_frame,
};
use yewchat::ui::{
    avatar_url, bg_main_class, bg_message_class, bg_sidebar_class, border_class, is_gif_url,
    reaction_choices, str_eq, text_main_class, text_secondary_class,
};

#[test]
fn register_frame_exact_text() {
    assert_eq!(
        register_frame("alice"),
        "{\"messageType\":\"register\",\"dataArray\":null,\"data\":\"alice\"}"
    );
}

#[test]
fn message_frame_exact_text() {
    assert_eq!(
        message_frame("hi everyone"),
        "{\"messageType\":\"message\",\"dataArray\":null,\"data\":\"hi everyone\"}"
    );
}

#[test]
fn encode_message_data_exact_text() {
    let m = MessageData {
        from: "alice".to_string(),
        message: "hello".to_string(),
        reactions: None,
    };
    assert_eq!(
        encode_message_data(&m),
        "{\"from\":\"alice\",\"message\":\"hello\",\"reactions\":null}"
    );
    let m2 = MessageData {
        from: "bob".to_string(),
        message: "gif time".to_string(),
        reactions: Some(vec!["😂".to_string()]),
    };
    assert_eq!(
        encode_message_data(&m2),
        "{\"from\":\"bob\",\"message\":\"gif time\",\"reactions\":[\"😂\"]}"
    );
}

#[test]
fn encoder_escapes_specials() {
    let m = MessageData {
        from: "a\"b".to_string(),
        message: "x\\y\nz\tq\r".to_string(),
        reactions: None,
    };
    assert_eq!(
        encode_message_data(&m),
        "{\"from\":\"a\\\"b\",\"message\":\"x\\\\y\\nz\\tq\\r\",\"reactions\":null}"
    );
}

#[test]
fn encoder_escapes_controls_as_hex() {
    let m = MessageData {
        from: "a".to_string(),
        message: "\u{0001}\u{001f}".to_string(),
        reactions: None,
    };
    assert_eq!(
        encode_message_data(&m),
        "{\"from\":\"a\",\"message\":\"\\u0001\\u001f\",\"reactions\":null}"
    );
}

#[test]
fn parser_decodes_escapes() {
    let m = parse_message_data_str(
        "{\"from\":\"a\",\"message\":\"q\\\"w\\\\e\\/r\\b\\f\\n\\r\\t\\u00e9\\u0041\",\"reactions\":null}",
    )
    .unwrap();
    assert_eq!(m.message, "q\"w\\e/r\u{8}\u{c}\n\r\téA");
}

#[test]
fn parser_rejects_big_unicode_escapes_but_takes_raw_chars() {
    assert!(parse_message_data_str(
        "{\"from\":\"a\",\"message\":\"\\u1234\",\"reactions\":null}"
    )
    .is_none());
    let m = parse_message_data_str("{\"from\":\"émile\",\"message\":\"日本語 😀\",\"reactions\":null}")
        .unwrap();
    assert_eq!(m.from, "émile");
    assert_eq!(m.message, "日本語 😀");
}

#[test]
fn envelope_round_trips_through_text() {
    let cases = vec![
        WebSocketMessage {
            message_type: MsgTypes::Users,
            data_array: Some(vec!["alice".to_string(), "b ob".to_string(), "".to_string()]),
            data: None,
        },
        WebSocketMessage {
            message_type: MsgTypes::Register,
            data_array: None,
            data: Some("we\"ird\\name\n".to_string()),
        },
        WebSocketMessage {
            message_type: MsgTypes::Reaction,
            data_array: Some(vec![]),
            data: Some("😂".to_string()),
        },
    ];
    for m in cases {
        let text = encode_envelope(&m);
        let back = parse_envelope_str(&text).unwrap();
        assert_eq!(back.message_type as u32, m.message_type as u32);
        assert_eq!(back.data_array, m.data_array);
        assert_eq!(back.data, m.data);
    }
}

#[test]
fn message_data_round_trips_through_text() {
    let m = MessageData {
        from: "ünïcødé 😀".to_string(),
        message: "tabs\tand\nnewlines and \"quotes\"".to_string(),
        reactions: Some(vec!["❤️".to_string(), "👍".to_string()]),
    };
    let back = parse_message_data_str(&encode_message_data(&m)).unwrap();
    assert_eq!(back.from, m.from);
    assert_eq!(back.message, m.message);
    assert_eq!(back.reactions, m.reactions);
}

#[test]
fn serde_json_reads_what_the_encoder_writes() {
    let text = encode_envelope(&WebSocketMessage {
        message_type: MsgTypes::Users,
        data_array: Some(vec!["al\"ice".to_string(), "bob\n".to_string()]),
        data: None,
    });
    let v: serde_json::Value = serde_json::from_str(&text).unwrap();
    assert_eq!(v.get("messageType").unwrap().as_str().unwrap(), "users");
    let arr = v.get("dataArray").unwrap().as_array().unwrap();
    assert_eq!(arr.len(), 2);
    assert_eq!(arr[0].as_str().unwrap(), "al\"ice");
    assert_eq!(arr[1].as_str().unwrap(), "bob\n");
    assert!(v.get("data").unwrap().is_null());
}

#[test]
fn parser_reads_what_serde_json_writes() {
    let mut obj = serde_json::Map::new();
    obj.insert(
        "messageType".to_string(),
        serde_json::Value::String("message".to_string()),
    );
    obj.insert("dataArray".to_string(), serde_json::Value::Null);
    obj.insert(
        "data".to_string(),
        serde_json::Value::String("{\"from\":\"a\",\"message\":\"ok\"}".to_string()),
    );
    let text = serde_json::to_string(&serde_json::Value::Object(obj)).unwrap();
    let env = parse_envelope_str(&text).unwrap();
    assert!(matches!(env.message_type, MsgTypes::Message));
    let inner = parse_message_data_str(env.data.as_deref().unwrap()).unwrap();
    assert_eq!(inner.from, "a");
    assert_eq!(inner.message, "ok");
    assert_eq!(inner.reactions, None);
}

#[test]
fn avatar_url_is_derived_from_name() {
    assert_eq!(
        avatar_url("alice"),
        "https://avatars.dicebear.com/api/adventurer-neutral/alice.svg"
    );
    assert_eq!(
        avatar_url(""),
        "https://avatars.dicebear.com/api/adventurer-neutral/.svg"
    );
}

#[test]
fn gif_suffix_detection() {
    assert!(is_gif_url("https://cats.example/cat.gif"));
    assert!(is_gif_url(".gif"));
    assert!(!is_gif_url("gif"));
    assert!(!is_gif_url("picture.png"));
    assert!(!is_gif_url("nearly.gif.txt"));
    assert!(!is_gif_url(""));
}

#[test]
fn palette_follows_dark_mode_flag() {
    assert_eq!(bg_main_class(false), "bg-gray-50");
    assert_eq!(bg_main_class(true), "bg-gray-900");
    assert_eq!(bg_sidebar_class(false), "bg-gray-100");
    assert_eq!(bg_sidebar_class(true), "bg-gray-800");
    assert_eq!(text_main_class(false), "text-gray-900");
    assert_eq!(text_main_class(true), "text-white");
    assert_eq!(text_secondary_class(false), "text-gray-600");
    assert_eq!(text_secondary_class(true), "text-gray-300");
    assert_eq!(bg_message_class(false), "bg-white");
    assert_eq!(bg_message_class(true), "bg-gray-700");
    assert_eq!(border_class(false), "border-gray-300");
    assert_eq!(border_class(true), "border-gray-600");
}

#[test]
fn four_reaction_choices() {
    let r = reaction_choices();
    assert_eq!(r, vec!["❤️", "👍", "😂", "😮"]);
}

#[test]
fn str_eq_compares_content() {
    assert!(str_eq("añb", "añb"));
    assert!(!str_eq("a", "b"));
    assert!(!str_eq("a", "ab"));
}
