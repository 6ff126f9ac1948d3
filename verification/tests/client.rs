use tetris::client::ServerConfig;
use tetris::highscores::{escape_quotes, highscore_query};
use tetris::config::Config;
use tetris::networking::ServerMessage;
use tetris::piece::Type;
use tetris::replay::Replay;

#[test]
fn new_server_config_is_empty() {
    let s = ServerConfig::new();
    assert_eq!(s.publickey(), &[0u8; 32]);
}

#[test]
fn score_request_for_everyone_or_for_this_player() {
    let s = ServerConfig::new();
    match s.scores_request(true, false) {
        ServerMessage::RequestHighscores { by_score, idtag, from, to } => {
            assert!(by_score);
            assert!(idtag.is_none());
            assert_eq!((from, to), (0, 0));
        }
        _ => panic!("wrong request"),
    }
    match s.scores_request(false, true) {
        ServerMessage::RequestHighscores { by_score, idtag, .. } => {
            assert!(!by_score);
            assert_eq!(idtag, Some(String::new()));
        }
        _ => panic!("wrong request"),
    }
}

#[test]
fn upload_and_fetch_requests() {
    let s = ServerConfig::new();
    let c = Config::new();
    let mut r = Replay::new(&c, Type::T, Type::S, 0);
    r.add_new_piece(4);
    match s.upload_request("bob", &r) {
        ServerMessage::UploadReplay { name, idtag, replay } => {
            assert_eq!(name, "bob");
            assert_eq!(idtag, "");
            assert_eq!(replay.data(), r.data());
            assert_eq!(replay.frames(), 4);
        }
        _ => panic!("wrong request"),
    }
    match s.replay_request(42) {
        ServerMessage::RequestReplays { ids } => assert_eq!(ids, vec![42]),
        _ => panic!("wrong request"),
    }
}

#[test]
fn quotes_in_tags_are_doubled() {
    assert_eq!(escape_quotes("abc"), "abc");
    assert_eq!(escape_quotes("o'neil"), "o''neil");
    assert_eq!(escape_quotes("''"), "''''");
    assert_eq!(escape_quotes(""), "");
    assert_eq!(escape_quotes("größe'"), "größe''");
}

#[test]
fn highscore_queries() {
    assert_eq!(
        highscore_query(true, None),
        "SELECT id, name, timestamp, endLevel, score, game\n                    FROM replay\n                    ORDER BY score DESC"
    );
    assert_eq!(
        highscore_query(false, Some("a'b")),
        "SELECT id, name, timestamp, endLevel, score, game\n                    FROM replay\n                    WHERE idtag = 'a''b'\n                    ORDER BY timestamp DESC"
    );
}
