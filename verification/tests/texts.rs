use amine::i18n::{
    format_eliminated_msg, format_game_over_msg, format_game_started_msg, format_player_joined_msg,
    format_player_left_msg, parse_u32, render_system_event, t, Language,
};

#[test]
fn language_codes_round_trip() {
    assert_eq!(Language::En.code(), "en");
    assert_eq!(Language::Zh.code(), "zh");
    assert_eq!(Language::from_code("zh"), Language::Zh);
    assert_eq!(Language::from_code("en"), Language::En);
    assert_eq!(Language::from_code("fr"), Language::En);
    assert_eq!(Language::from_code(Language::Zh.code()), Language::Zh);
    assert_eq!(Language::En.toggle(), Language::Zh);
    assert_eq!(Language::Zh.toggle().toggle(), Language::Zh);
}

#[test]
fn interface_text_lookups() {
    assert_eq!(t(Language::En, "app_title"), "3D Möbius Minesweeper");
    assert_eq!(t(Language::Zh, "app_title"), "3D 莫比乌斯环拓扑扫雷");
    assert_eq!(t(Language::En, "lobby_title"), "Multiplayer Lobby");
    assert_eq!(t(Language::Zh, "lobby_title"), "多人即时对战大厅");
    // An unknown key is shown as it is.
    assert_eq!(t(Language::En, "no_such_key"), "no_such_key");
    assert_eq!(t(Language::Zh, "no_such_key"), "no_such_key");
}

#[test]
fn formatted_messages() {
    assert_eq!(format_eliminated_msg(Language::En, "bob"), "Player [bob] hit a mine and was eliminated!");
    assert_eq!(format_eliminated_msg(Language::Zh, "bob"), "玩家 [bob] 触雷出局！");
    assert_eq!(format_player_joined_msg(Language::En, "amy"), "Player [amy] joined the room.");
    assert_eq!(format_player_joined_msg(Language::Zh, "amy"), "玩家 [amy] 加入了房间。");
    assert_eq!(format_player_left_msg(Language::En, "amy"), "Player [amy] left the room.");
    assert_eq!(format_player_left_msg(Language::Zh, "amy"), "玩家 [amy] 离开了房间。");
    assert_eq!(
        format_game_started_msg(Language::En),
        "The battle has begun! Fast-click non-mine cells to earn points!"
    );
    assert_eq!(format_game_started_msg(Language::Zh), "战斗开始！快速翻开非雷格争夺积分！");
    assert_eq!(format_game_over_msg(Language::En, "amy", 42), "Game Over! Champion: [amy] with 42 points!");
    assert_eq!(format_game_over_msg(Language::Zh, "amy", 0), "对局结束！恭喜获胜者: [amy]，获得 0 分！");
}

#[test]
fn system_events_render_with_defaults() {
    let p = |v: &[&str]| v.iter().map(|s| s.to_string()).collect::<Vec<String>>();
    assert_eq!(render_system_event(Language::En, "player_joined", &p(&["zed"])), "Player [zed] joined the room.");
    assert_eq!(render_system_event(Language::En, "player_left", &p(&[])), "Player [Player] left the room.");
    assert_eq!(render_system_event(Language::Zh, "player_eliminated", &p(&["x"])), "玩家 [x] 触雷出局！");
    assert_eq!(
        render_system_event(Language::En, "game_started", &p(&[])),
        "The battle has begun! Fast-click non-mine cells to earn points!"
    );
    assert_eq!(
        render_system_event(Language::En, "game_over", &p(&["amy", "17"])),
        "Game Over! Champion: [amy] with 17 points!"
    );
    assert_eq!(
        render_system_event(Language::En, "game_over", &p(&["amy", "x17"])),
        "Game Over! Champion: [amy] with 0 points!"
    );
    assert_eq!(
        render_system_event(Language::En, "game_over", &p(&[])),
        "Game Over! Champion: [Winner] with 0 points!"
    );
    assert_eq!(render_system_event(Language::En, "custom", &p(&["hello", "x"])), "hello");
    assert_eq!(render_system_event(Language::En, "custom", &p(&[])), "");
}

#[test]
fn unsigned_parsing_follows_the_standard_rules() {
    assert_eq!(parse_u32("0"), Some(0));
    assert_eq!(parse_u32("+42"), Some(42));
    assert_eq!(parse_u32("4294967295"), Some(u32::MAX));
    assert_eq!(parse_u32("4294967296"), None);
    assert_eq!(parse_u32(""), None);
    assert_eq!(parse_u32("+"), None);
    assert_eq!(parse_u32("-1"), None);
    assert_eq!(parse_u32(" 1"), None);
    assert_eq!(parse_u32("007"), Some(7));
    for s in ["0", "+42", "4294967296", "", "12a", "99999"] {
        assert_eq!(parse_u32(s), s.parse::<u32>().ok(), "{}", s);
    }
}
