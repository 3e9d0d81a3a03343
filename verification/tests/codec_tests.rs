use async_chat::codec::{decode_from_client, decode_from_server, encode_from_client, encode_from_server};
use async_chat::command::parse_command;
use async_chat::protocol::{FromClient, FromServer};

fn strip_newline(mut frame: Vec<u8>) -> Vec<u8> {
    assert_eq!(frame.last(), Some(&b'\n'));
    frame.pop();
    frame
}

#[test]
fn test_from_client() {
    let from_client = FromClient::Post {
        group_name: b"dogs".to_vec(),
        message: b"bulldogs are scary!".to_vec(),
    };
    let frame = encode_from_client(&from_client);
    let line = strip_newline(frame);

    assert_eq!(
        line,
        r#"{"Post":{"group_name":"dogs","message":"bulldogs are scary!"}}"#.as_bytes().to_vec()
    );

    assert_eq!(decode_from_client(&line).unwrap(), from_client);
}

#[test]
fn test_send_as_json() {
    let from_client = FromClient::Join {
        group_name: b"mah-group".to_vec(),
    };

    let buf = encode_from_client(&from_client);
    assert_eq!(buf, "{\"Join\":{\"group_name\":\"mah-group\"}}\n".as_bytes().to_vec());
}

#[test]
fn test_receive_as_json() {
    let line = "{\"Join\":{\"group_name\":\"mah-group\"}}\n";
    let inbound = line.as_bytes();

    let stripped = inbound[..inbound.len() - 1].to_vec();
    let decoded = decode_from_client(&stripped).unwrap();
    assert_eq!(
        decoded,
        FromClient::Join {
            group_name: b"mah-group".to_vec()
        }
    );
}

#[test]
fn test_parse_command() {
    let cmd = parse_command(&b"join c++devs".to_vec()).unwrap();
    assert_eq!(
        cmd,
        FromClient::Join {
            group_name: b"c++devs".to_vec()
        }
    );

    let cmd = parse_command(&b"post c++devs C++ sucks, use Rust!".to_vec()).unwrap();
    assert_eq!(
        cmd,
        FromClient::Post {
            group_name: b"c++devs".to_vec(),
            message: b"C++ sucks, use Rust!".to_vec(),
        }
    );

    let cmd = parse_command(&b"blah blach".to_vec());
    assert!(cmd.is_none());
}

#[test]
fn parse_command_trims_and_splits() {
    let cmd = parse_command(&b"   join dogs \t".to_vec()).unwrap();
    assert_eq!(
        cmd,
        FromClient::Join {
            group_name: b"dogs".to_vec()
        }
    );

    // a double space makes the middle part empty: not a command
    assert!(parse_command(&b"join  dogs".to_vec()).is_none());
    // no group at all
    assert!(parse_command(&b"join".to_vec()).is_none());
    // post without a message
    assert!(parse_command(&b"post dogs".to_vec()).is_none());
    // the message keeps everything after the first separating space
    let cmd = parse_command(&b"post g  m".to_vec()).unwrap();
    assert_eq!(
        cmd,
        FromClient::Post {
            group_name: b"g".to_vec(),
            message: b" m".to_vec(),
        }
    );
    // a double space after `post` yields an empty group name, as splitting
    // on single spaces does
    let cmd = parse_command(&b"post  x".to_vec()).unwrap();
    assert_eq!(
        cmd,
        FromClient::Post {
            group_name: b"".to_vec(),
            message: b"x".to_vec(),
        }
    );
    assert!(parse_command(&b"   ".to_vec()).is_none());
    assert!(parse_command(&b"".to_vec()).is_none());
}

#[test]
fn parse_command_trims_unicode_whitespace() {
    // no-break spaces around the command are trimmed, as str::trim does
    let cmd = parse_command(&"\u{00A0}join dogs\u{00A0}".as_bytes().to_vec()).unwrap();
    assert_eq!(
        cmd,
        FromClient::Join {
            group_name: b"dogs".to_vec()
        }
    );

    // an ideographic space and a thin space likewise
    let cmd = parse_command(&"\u{2009}post g m\u{3000}".as_bytes().to_vec()).unwrap();
    assert_eq!(
        cmd,
        FromClient::Post {
            group_name: b"g".to_vec(),
            message: b"m".to_vec(),
        }
    );

    // next line (U+0085) and line separator (U+2028) count as whitespace too
    let cmd = parse_command(&"\u{0085}join x\u{2028}".as_bytes().to_vec()).unwrap();
    assert_eq!(
        cmd,
        FromClient::Join {
            group_name: b"x".to_vec()
        }
    );

    // a line that is nothing but Unicode whitespace is no command
    assert!(parse_command(&"\u{00A0}\u{3000}\u{2003}".as_bytes().to_vec()).is_none());

    // in the middle, a no-break space is no separator: the name keeps it
    assert!(parse_command(&"join\u{00A0}dogs".as_bytes().to_vec()).is_none());
    let cmd = parse_command(&"join dogs\u{00A0}cats".as_bytes().to_vec());
    assert_eq!(
        cmd.unwrap(),
        FromClient::Join {
            group_name: "dogs\u{00A0}cats".as_bytes().to_vec()
        }
    );

    // a zero-width space has no White_Space property and stays
    assert!(parse_command(&"\u{200B}join dogs".as_bytes().to_vec()).is_none());
}

#[test]
fn client_round_trips() {
    let values = vec![
        FromClient::Join {
            group_name: b"news".to_vec(),
        },
        FromClient::Join {
            group_name: b"".to_vec(),
        },
        FromClient::Post {
            group_name: b"g".to_vec(),
            message: b"a\"b\\c\nd".to_vec(),
        },
        FromClient::Post {
            group_name: b"tabs\tand\rreturns".to_vec(),
            message: vec![1u8, 8, 12, 31, 32, 200, 255],
        },
    ];
    for v in values {
        let line = strip_newline(encode_from_client(&v));
        assert_eq!(decode_from_client(&line).unwrap(), v);
    }
}

#[test]
fn server_round_trips() {
    let values = vec![
        FromServer::Message {
            group_name: b"news".to_vec(),
            message: b"hello".to_vec(),
        },
        FromServer::Message {
            group_name: b"\"quoted\"".to_vec(),
            message: b"back\\slash".to_vec(),
        },
        FromServer::Error(b"Group doesn't exist ghosts".to_vec()),
        FromServer::Error(b"".to_vec()),
    ];
    for v in values {
        let line = strip_newline(encode_from_server(&v));
        assert_eq!(decode_from_server(&line).unwrap(), v);
    }
}

#[test]
fn escapes_are_exact() {
    let v = FromClient::Post {
        group_name: b"g".to_vec(),
        message: b"a\"b\\c\nd".to_vec(),
    };
    let frame = encode_from_client(&v);
    assert_eq!(
        frame,
        "{\"Post\":{\"group_name\":\"g\",\"message\":\"a\\\"b\\\\c\\nd\"}}\n"
            .as_bytes()
            .to_vec()
    );

    let v = FromServer::Error(vec![1u8]);
    let frame = encode_from_server(&v);
    assert_eq!(frame, "{\"Error\":\"\\u0001\"}\n".as_bytes().to_vec());
}

#[test]
fn frames_hold_one_line() {
    let v = FromClient::Post {
        group_name: b"g".to_vec(),
        message: b"line one\nline two\n".to_vec(),
    };
    let frame = encode_from_client(&v);
    assert_eq!(frame.iter().filter(|&&b| b == b'\n').count(), 1);
    assert_eq!(frame.last(), Some(&b'\n'));
}

#[test]
fn decode_rejects_malformed_lines() {
    let bad: Vec<&[u8]> = vec![
        b"",
        b"not json at all",
        b"{\"Join\":{\"group_name\":\"x\"}",
        b"{\"Join\":{\"group_name\":\"x\"}}}",
        b"{\"Join\":{\"group_name\":\"x}}",
        b"{\"Join\":{\"group_name\":\"x\\q\"}}",
        b"{\"Jain\":{\"group_name\":\"x\"}}",
        b"{\"Post\":{\"group_name\":\"x\"}}",
        b"{\"Post\":{\"group_name\":\"x\",\"message\":\"y\"}} ",
    ];
    for line in bad {
        assert!(decode_from_client(&line.to_vec()).is_none());
    }

    let bad_server: Vec<&[u8]> = vec![
        b"",
        b"{\"Error\":\"x\"",
        b"{\"Error\":\"x\"}}",
        b"{\"Message\":{\"group_name\":\"x\"}}",
    ];
    for line in bad_server {
        assert!(decode_from_server(&line.to_vec()).is_none());
    }
}

#[test]
fn decode_accepts_unicode_escapes_for_ascii() {
    let line = b"{\"Join\":{\"group_name\":\"mah\\u0041group\"}}".to_vec();
    assert_eq!(
        decode_from_client(&line).unwrap(),
        FromClient::Join {
            group_name: b"mahAgroup".to_vec()
        }
    );
}
