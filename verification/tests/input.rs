use weecord::input::{
    decide_send, finish_reaction, send_message_action, typing_signal, Recent, ReactionRequest,
    SendAction,
};

fn recent() -> Vec<Recent> {
    vec![
        Recent::Sent { id: 30, own: true, content: "a cat and a cat".to_string() },
        Recent::Sent { id: 20, own: false, content: "someone else".to_string() },
        Recent::LocalEcho,
    ]
}

#[test]
fn substitution_edits_first_match() {
    assert_eq!(
        decide_send("s/cat/dog/", &recent(), None, 7),
        SendAction::Edit { id: 30, content: "a dog and a cat".to_string() }
    );
}

#[test]
fn global_substitution_edits_every_match() {
    assert_eq!(
        decide_send("s/cat/dog/g", &recent(), None, 7),
        SendAction::Edit { id: 30, content: "a dog and a dog".to_string() }
    );
}

#[test]
fn edits_and_deletions_count_own_messages_only() {
    // The second line is someone else's: `2s` names the user's second own message.
    let mixed = vec![
        Recent::Sent { id: 30, own: true, content: "a cat".to_string() },
        Recent::Sent { id: 20, own: false, content: "someone else".to_string() },
        Recent::LocalEcho,
        Recent::Sent { id: 10, own: true, content: "old cat".to_string() },
    ];
    assert_eq!(
        decide_send("2s/cat/dog/", &mixed, None, 7),
        SendAction::Edit { id: 10, content: "old dog".to_string() }
    );
    assert_eq!(decide_send("s//", &mixed, None, 7), SendAction::Delete { id: 30 });
    assert_eq!(decide_send("2s//", &mixed, None, 7), SendAction::Delete { id: 10 });
    assert_eq!(
        decide_send("3s//", &mixed, None, 7),
        SendAction::Print("discord: unable to locate message n = 3".to_string())
    );
}

#[test]
fn missing_message_is_reported() {
    assert_eq!(
        decide_send("5s/a/b/", &recent(), None, 7),
        SendAction::Print("discord: unable to locate message n = 5".to_string())
    );
    assert_eq!(
        decide_send("2s/a/b/", &recent(), None, 7),
        SendAction::Print("discord: unable to locate message n = 2".to_string())
    );
}

#[test]
fn reactions() {
    assert_eq!(
        decide_send("+👍", &recent(), None, 7),
        SendAction::React {
            id: 30,
            add: true,
            reaction: ReactionRequest::Unicode { name: "👍".to_string() }
        }
    );
    assert_eq!(
        decide_send("2-<:party:55>", &recent(), None, 7),
        SendAction::React {
            id: 20,
            add: false,
            reaction: ReactionRequest::Custom { id: 55, name: "<:party:55>".to_string() }
        }
    );
    assert_eq!(
        decide_send("+:smile:", &recent(), None, 7),
        SendAction::LookupShortcode { name: "smile".to_string(), add: true, line: 1 }
    );
}

#[test]
fn shortcode_lookup_finishes() {
    assert_eq!(
        finish_reaction(&recent(), 1, true, Some("😄".to_string())),
        SendAction::React {
            id: 30,
            add: true,
            reaction: ReactionRequest::Unicode { name: "😄".to_string() }
        }
    );
    assert_eq!(finish_reaction(&recent(), 1, true, None), SendAction::Nothing);
    assert_eq!(finish_reaction(&recent(), 3, true, Some("x".to_string())), SendAction::Nothing);
}

#[test]
fn plain_lines_are_sent() {
    assert_eq!(
        decide_send("hello there", &recent(), None, 99),
        SendAction::Send { content: "hello there".to_string(), nonce: 99 }
    );
    assert_eq!(
        decide_send("hello", &recent(), Some(false), 99),
        SendAction::Print("discord: you don't have permission to send messages in this channel".to_string())
    );
    match send_message_action("hello", &recent(), Some(true)) {
        SendAction::Send { content, nonce } => {
            assert_eq!(content, "hello");
            assert!(nonce <= i64::MAX as u64);
        },
        other => panic!("unexpected {:?}", other),
    }
}

#[test]
fn typing_notices() {
    assert_eq!(typing_signal(true, "hi", 0, 100), (100, true));
    assert_eq!(typing_signal(true, "hi", 95, 100), (95, false));
    assert_eq!(typing_signal(true, "hi", 91, 100), (91, false));
    assert_eq!(typing_signal(true, "hi", 90, 100), (100, true));
    assert_eq!(typing_signal(true, "h", 0, 100), (0, false));
    assert_eq!(typing_signal(true, "/command", 0, 100), (0, false));
    assert_eq!(typing_signal(false, "hello", 0, 100), (0, false));
}

#[test]
fn readme_editing_examples() {
    // To edit the previous message: s/foo/bar/
    let recent = vec![Recent::Sent { id: 1, own: true, content: "foo!".to_string() }];
    assert_eq!(
        decide_send("s/foo/bar/", &recent, None, 0),
        SendAction::Edit { id: 1, content: "bar!".to_string() }
    );
    // To delete the previous message: s///
    assert_eq!(decide_send("s///", &recent, None, 0), SendAction::Delete { id: 1 });
    // To delete the 3rd most recent message (sent by you): 3s///
    let three = vec![
        Recent::Sent { id: 3, own: true, content: "c".to_string() },
        Recent::Sent { id: 9, own: false, content: "x".to_string() },
        Recent::Sent { id: 2, own: true, content: "b".to_string() },
        Recent::Sent { id: 1, own: true, content: "a".to_string() },
    ];
    assert_eq!(decide_send("3s///", &three, None, 0), SendAction::Delete { id: 1 });
}
