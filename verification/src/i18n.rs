//! Interface texts in English and Chinese, and the chat lines for system
//! events.
use vstd::prelude::*;
use crate::text::{str_eq, decimal, u64_decimal, owned};

verus! {

#[derive(Debug, Clone, Copy, PartialEq, Eq, Structural)]
pub enum Language {
    En,
    Zh,
}

/// The code of a language.
pub open spec fn code_of(l: Language) -> Seq<char> {
    match l {
        Language::En => "en"@,
        Language::Zh => "zh"@,
    }
}

/// The language of a code: `"zh"` is Chinese, every other code English.
pub open spec fn language_of(code: Seq<char>) -> Language {
    if code == "zh"@ { Language::Zh } else { Language::En }
}

/// The other language.
pub open spec fn other(l: Language) -> Language {
    match l {
        Language::En => Language::Zh,
        Language::Zh => Language::En,
    }
}

/// A language's code reads back as that language, and switching twice
/// comes back to the start.
pub proof fn lemma_language_round_trips(l: Language)
    ensures
        language_of(code_of(l)) == l,
        other(other(l)) == l,
        other(l) != l,
{
    reveal_strlit("en");
    reveal_strlit("zh");
    assert("en"@ != "zh"@) by {
        assert("en"@[0] != "zh"@[0]);
    }
}

impl Language {
    pub fn code(&self) -> (s: &'static str)
        ensures
            s@ == code_of(*self),
    {
        match self {
            Language::En => "en",
            Language::Zh => "zh",
        }
    }

    /// `"zh"` is Chinese; every other code is English.
    pub fn from_code(code: &str) -> (l: Language)
        ensures
            l == language_of(code@),
    {
        if str_eq(code, "zh") {
            Language::Zh
        } else {
            Language::En
        }
    }

    pub fn toggle(&self) -> (l: Language)
        ensures
            l == other(*self),
    {
        match self {
            Language::En => Language::Zh,
            Language::Zh => Language::En,
        }
    }
}

/// The two tables translate the same keys: a key keeps its own text in
/// English exactly when it does in Chinese.
pub proof fn lemma_tables_share_keys(key: Seq<char>)
    ensures
        english(key) is Some <==> chinese(key) is Some,
{
}

/// Every English text is non-empty and differs from its key.
pub proof fn lemma_english_texts(key: Seq<char>)
    ensures
        english(key) matches Some(v) ==> v.len() > 0 && v != key,
{
    assert("3D Möbius Minesweeper"@.len() > 0 && "3D Möbius Minesweeper"@ != "app_title"@) by {
        reveal_strlit("app_title");
        reveal_strlit("3D Möbius Minesweeper");
        assert("app_title"@.len() == 9);
        assert("3D Möbius Minesweeper"@.len() == 21);
    }
    assert("Topological Non-Euclidean Multiplayer Minesweeper"@.len() > 0 && "Topological Non-Euclidean Multiplayer Minesweeper"@ != "app_subtitle"@) by {
        reveal_strlit("app_subtitle");
        reveal_strlit("Topological Non-Euclidean Multiplayer Minesweeper");
        assert("app_subtitle"@.len() == 12);
        assert("Topological Non-Euclidean Multiplayer Minesweeper"@.len() == 49);
    }
    assert("Single-Player"@.len() > 0 && "Single-Player"@ != "nav_single"@) by {
        reveal_strlit("nav_single");
        reveal_strlit("Single-Player");
        assert("nav_single"@.len() == 10);
        assert("Single-Player"@.len() == 13);
    }
    assert("Multiplayer Battle"@.len() > 0 && "Multiplayer Battle"@ != "nav_multi"@) by {
        reveal_strlit("nav_multi");
        reveal_strlit("Multiplayer Battle");
        assert("nav_multi"@.len() == 9);
        assert("Multiplayer Battle"@.len() == 18);
    }
    assert("Leaderboard & Stats"@.len() > 0 && "Leaderboard & Stats"@ != "nav_stats"@) by {
        reveal_strlit("nav_stats");
        reveal_strlit("Leaderboard & Stats");
        assert("nav_stats"@.len() == 9);
        assert("Leaderboard & Stats"@.len() == 19);
    }
    assert("Sign In"@.len() > 0 && "Sign In"@ != "nav_login"@) by {
        reveal_strlit("nav_login");
        reveal_strlit("Sign In");
        assert("nav_login"@.len() == 9);
        assert("Sign In"@.len() == 7);
    }
    assert("Register"@.len() > 0 && "Register"@ != "nav_register"@) by {
        reveal_strlit("nav_register");
        reveal_strlit("Register");
        assert("nav_register"@.len() == 12);
        assert("Register"@.len() == 8);
    }
    assert("Sign Out"@.len() > 0 && "Sign Out"@ != "nav_logout"@) by {
        reveal_strlit("nav_logout");
        reveal_strlit("Sign Out");
        assert("nav_logout"@.len() == 10);
        assert("Sign Out"@.len() == 8);
    }
    assert("Guest Player"@.len() > 0 && "Guest Player"@ != "nav_guest"@) by {
        reveal_strlit("nav_guest");
        reveal_strlit("Guest Player");
        assert("nav_guest"@.len() == 9);
        assert("Guest Player"@.len() == 12);
    }
    assert("Easy"@.len() > 0 && "Easy"@ != "diff_easy"@) by {
        reveal_strlit("diff_easy");
        reveal_strlit("Easy");
        assert("diff_easy"@.len() == 9);
        assert("Easy"@.len() == 4);
    }
    assert("Medium"@.len() > 0 && "Medium"@ != "diff_medium"@) by {
        reveal_strlit("diff_medium");
        reveal_strlit("Medium");
        assert("diff_medium"@.len() == 11);
        assert("Medium"@.len() == 6);
    }
    assert("Expert"@.len() > 0 && "Expert"@ != "diff_expert"@) by {
        reveal_strlit("diff_expert");
        reveal_strlit("Expert");
        assert("diff_expert"@.len() == 11);
        assert("Expert"@.len() == 6);
    }
    assert("Custom"@.len() > 0 && "Custom"@ != "diff_custom"@) by {
        reveal_strlit("diff_custom");
        reveal_strlit("Custom");
        assert("diff_custom"@.len() == 11);
        assert("Custom"@.len() == 6);
    }
    assert("Time"@.len() > 0 && "Time"@ != "hud_time"@) by {
        reveal_strlit("hud_time");
        reveal_strlit("Time");
        assert("hud_time"@.len() == 8);
        assert("Time"@.len() == 4);
    }
    assert("Mines"@.len() > 0 && "Mines"@ != "hud_mines"@) by {
        reveal_strlit("hud_mines");
        reveal_strlit("Mines");
        assert("hud_mines"@.len() == 9);
        assert("Mines"@.len() == 5);
    }
    assert("Depth Layer (Z)"@.len() > 0 && "Depth Layer (Z)"@ != "hud_layer"@) by {
        reveal_strlit("hud_layer");
        reveal_strlit("Depth Layer (Z)");
        assert("hud_layer"@.len() == 9);
        assert("Depth Layer (Z)"@.len() == 15);
    }
    assert("Personal Best"@.len() > 0 && "Personal Best"@ != "hud_pb"@) by {
        reveal_strlit("hud_pb");
        reveal_strlit("Personal Best");
        assert("hud_pb"@.len() == 6);
        assert("Personal Best"@.len() == 13);
    }
    assert("No Record"@.len() > 0 && "No Record"@ != "hud_no_pb"@) by {
        reveal_strlit("hud_no_pb");
        reveal_strlit("No Record");
        assert("hud_no_pb"@.len() == 9);
        assert("No Record"@.len() == 9);
        assert("hud_no_pb"@[0] != "No Record"@[0]);
    }
    assert("Restart Game"@.len() > 0 && "Restart Game"@ != "hud_restart"@) by {
        reveal_strlit("hud_restart");
        reveal_strlit("Restart Game");
        assert("hud_restart"@.len() == 11);
        assert("Restart Game"@.len() == 12);
    }
    assert("Room Code"@.len() > 0 && "Room Code"@ != "hud_room_code"@) by {
        reveal_strlit("hud_room_code");
        reveal_strlit("Room Code");
        assert("hud_room_code"@.len() == 13);
        assert("Room Code"@.len() == 9);
    }
    assert("Copy Code"@.len() > 0 && "Copy Code"@ != "hud_copy_code"@) by {
        reveal_strlit("hud_copy_code");
        reveal_strlit("Copy Code");
        assert("hud_copy_code"@.len() == 13);
        assert("Copy Code"@.len() == 9);
    }
    assert("Copied!"@.len() > 0 && "Copied!"@ != "hud_copied"@) by {
        reveal_strlit("hud_copied");
        reveal_strlit("Copied!");
        assert("hud_copied"@.len() == 10);
        assert("Copied!"@.len() == 7);
    }
    assert("Score"@.len() > 0 && "Score"@ != "hud_score"@) by {
        reveal_strlit("hud_score");
        reveal_strlit("Score");
        assert("hud_score"@.len() == 9);
        assert("Score"@.len() == 5);
    }
    assert("⛏️ Dig Mode"@.len() > 0 && "⛏️ Dig Mode"@ != "tool_dig"@) by {
        reveal_strlit("tool_dig");
        reveal_strlit("⛏️ Dig Mode");
        assert("tool_dig"@.len() == 8);
        assert("⛏️ Dig Mode"@.len() == 11);
    }
    assert("🚩 Flag Mode"@.len() > 0 && "🚩 Flag Mode"@ != "tool_flag"@) by {
        reveal_strlit("tool_flag");
        reveal_strlit("🚩 Flag Mode");
        assert("tool_flag"@.len() == 9);
        assert("🚩 Flag Mode"@.len() == 11);
    }
    assert("Pause"@.len() > 0 && "Pause"@ != "hud_pause"@) by {
        reveal_strlit("hud_pause");
        reveal_strlit("Pause");
        assert("hud_pause"@.len() == 9);
        assert("Pause"@.len() == 5);
    }
    assert("Resume"@.len() > 0 && "Resume"@ != "hud_resume"@) by {
        reveal_strlit("hud_resume");
        reveal_strlit("Resume");
        assert("hud_resume"@.len() == 10);
        assert("Resume"@.len() == 6);
    }
    assert("Game Paused // Click or Press [P] to Resume"@.len() > 0 && "Game Paused // Click or Press [P] to Resume"@ != "status_paused"@) by {
        reveal_strlit("status_paused");
        reveal_strlit("Game Paused // Click or Press [P] to Resume");
        assert("status_paused"@.len() == 13);
        assert("Game Paused // Click or Press [P] to Resume"@.len() == 43);
    }
    assert("◄ Prev (Z-)"@.len() > 0 && "◄ Prev (Z-)"@ != "mobile_prev_layer"@) by {
        reveal_strlit("mobile_prev_layer");
        reveal_strlit("◄ Prev (Z-)");
        assert("mobile_prev_layer"@.len() == 17);
        assert("◄ Prev (Z-)"@.len() == 11);
    }
    assert("Next (Z+) ►"@.len() > 0 && "Next (Z+) ►"@ != "mobile_next_layer"@) by {
        reveal_strlit("mobile_next_layer");
        reveal_strlit("Next (Z+) ►");
        assert("mobile_next_layer"@.len() == 17);
        assert("Next (Z+) ►"@.len() == 11);
    }
    assert("Leave Room"@.len() > 0 && "Leave Room"@ != "mp_leave_room"@) by {
        reveal_strlit("mp_leave_room");
        reveal_strlit("Leave Room");
        assert("mp_leave_room"@.len() == 13);
        assert("Leave Room"@.len() == 10);
    }
    assert("Create Match"@.len() > 0 && "Create Match"@ != "mp_create_match"@) by {
        reveal_strlit("mp_create_match");
        reveal_strlit("Create Match");
        assert("mp_create_match"@.len() == 15);
        assert("Create Match"@.len() == 12);
    }
    assert("Möbius Seam Left (Inverts Y & Z)"@.len() > 0 && "Möbius Seam Left (Inverts Y & Z)"@ != "guide_mobius_left"@) by {
        reveal_strlit("guide_mobius_left");
        reveal_strlit("Möbius Seam Left (Inverts Y & Z)");
        assert("guide_mobius_left"@.len() == 17);
        assert("Möbius Seam Left (Inverts Y & Z)"@.len() == 32);
    }
    assert("Möbius Seam Right (Inverts Y & Z)"@.len() > 0 && "Möbius Seam Right (Inverts Y & Z)"@ != "guide_mobius_right"@) by {
        reveal_strlit("guide_mobius_right");
        reveal_strlit("Möbius Seam Right (Inverts Y & Z)");
        assert("guide_mobius_right"@.len() == 18);
        assert("Möbius Seam Right (Inverts Y & Z)"@.len() == 33);
    }
    assert("Q/E or Scroll: Switch Layer | Left Click: Reveal | Right Click: Flag | Chord Click: Quick Reveal"@.len() > 0 && "Q/E or Scroll: Switch Layer | Left Click: Reveal | Right Click: Flag | Chord Click: Quick Reveal"@ != "guide_controls"@) by {
        reveal_strlit("guide_controls");
        reveal_strlit("Q/E or Scroll: Switch Layer | Left Click: Reveal | Right Click: Flag | Chord Click: Quick Reveal");
        assert("guide_controls"@.len() == 14);
        assert("Q/E or Scroll: Switch Layer | Left Click: Reveal | Right Click: Flag | Chord Click: Quick Reveal"@.len() == 96);
    }
    assert("3D Möbius Topology: Crossing X=0 / X=W-1 double-inverts Y & Z axes. 26-neighborhood 3D Flood Fill active."@.len() > 0 && "3D Möbius Topology: Crossing X=0 / X=W-1 double-inverts Y & Z axes. 26-neighborhood 3D Flood Fill active."@ != "global_banner_text"@) by {
        reveal_strlit("global_banner_text");
        reveal_strlit("3D Möbius Topology: Crossing X=0 / X=W-1 double-inverts Y & Z axes. 26-neighborhood 3D Flood Fill active.");
        assert("global_banner_text"@.len() == 18);
        assert("3D Möbius Topology: Crossing X=0 / X=W-1 double-inverts Y & Z axes. 26-neighborhood 3D Flood Fill active."@.len() == 105);
    }
    assert("Topology Guide"@.len() > 0 && "Topology Guide"@ != "guide_title"@) by {
        reveal_strlit("guide_title");
        reveal_strlit("Topology Guide");
        assert("guide_title"@.len() == 11);
        assert("Topology Guide"@.len() == 14);
    }
    assert("• Slice Projection: The viewport displays the 2D layer Z. Navigate depth with Q/E or mouse wheel."@.len() > 0 && "• Slice Projection: The viewport displays the 2D layer Z. Navigate depth with Q/E or mouse wheel."@ != "guide_item_1"@) by {
        reveal_strlit("guide_item_1");
        reveal_strlit("• Slice Projection: The viewport displays the 2D layer Z. Navigate depth with Q/E or mouse wheel.");
        assert("guide_item_1"@.len() == 12);
        assert("• Slice Projection: The viewport displays the 2D layer Z. Navigate depth with Q/E or mouse wheel."@.len() == 97);
    }
    assert("• Möbius Seam: Crossing left/right inverts Y: (H-1)-Y and Z: (D-1)-Z."@.len() > 0 && "• Möbius Seam: Crossing left/right inverts Y: (H-1)-Y and Z: (D-1)-Z."@ != "guide_item_2"@) by {
        reveal_strlit("guide_item_2");
        reveal_strlit("• Möbius Seam: Crossing left/right inverts Y: (H-1)-Y and Z: (D-1)-Z.");
        assert("guide_item_2"@.len() == 12);
        assert("• Möbius Seam: Crossing left/right inverts Y: (H-1)-Y and Z: (D-1)-Z."@.len() == 69);
    }
    assert("• 26-Neighborhood: Numbers range from 0 to 26 based on all adjacent cells across 3D space."@.len() > 0 && "• 26-Neighborhood: Numbers range from 0 to 26 based on all adjacent cells across 3D space."@ != "guide_item_3"@) by {
        reveal_strlit("guide_item_3");
        reveal_strlit("• 26-Neighborhood: Numbers range from 0 to 26 based on all adjacent cells across 3D space.");
        assert("guide_item_3"@.len() == 12);
        assert("• 26-Neighborhood: Numbers range from 0 to 26 based on all adjacent cells across 3D space."@.len() == 90);
    }
    assert("• Safe Opening: First click guarantees a 27-cell clean opening."@.len() > 0 && "• Safe Opening: First click guarantees a 27-cell clean opening."@ != "guide_item_4"@) by {
        reveal_strlit("guide_item_4");
        reveal_strlit("• Safe Opening: First click guarantees a 27-cell clean opening.");
        assert("guide_item_4"@.len() == 12);
        assert("• Safe Opening: First click guarantees a 27-cell clean opening."@.len() == 63);
    }
    assert("Click any cell to start (Safe 27-cell opening guaranteed)"@.len() > 0 && "Click any cell to start (Safe 27-cell opening guaranteed)"@ != "status_ready"@) by {
        reveal_strlit("status_ready");
        reveal_strlit("Click any cell to start (Safe 27-cell opening guaranteed)");
        assert("status_ready"@.len() == 12);
        assert("Click any cell to start (Safe 27-cell opening guaranteed)"@.len() == 57);
    }
    assert("Game in progress..."@.len() > 0 && "Game in progress..."@ != "status_playing"@) by {
        reveal_strlit("status_playing");
        reveal_strlit("Game in progress...");
        assert("status_playing"@.len() == 14);
        assert("Game in progress..."@.len() == 19);
    }
    assert("Victory! Board Cleared!"@.len() > 0 && "Victory! Board Cleared!"@ != "status_won"@) by {
        reveal_strlit("status_won");
        reveal_strlit("Victory! Board Cleared!");
        assert("status_won"@.len() == 10);
        assert("Victory! Board Cleared!"@.len() == 23);
    }
    assert("Game Over! You hit a mine."@.len() > 0 && "Game Over! You hit a mine."@ != "status_lost"@) by {
        reveal_strlit("status_lost");
        reveal_strlit("Game Over! You hit a mine.");
        assert("status_lost"@.len() == 11);
        assert("Game Over! You hit a mine."@.len() == 26);
    }
    assert("Spectating Mode (Eliminated)"@.len() > 0 && "Spectating Mode (Eliminated)"@ != "status_spectating"@) by {
        reveal_strlit("status_spectating");
        reveal_strlit("Spectating Mode (Eliminated)");
        assert("status_spectating"@.len() == 17);
        assert("Spectating Mode (Eliminated)"@.len() == 28);
    }
    assert("Multiplayer Lobby"@.len() > 0 && "Multiplayer Lobby"@ != "lobby_title"@) by {
        reveal_strlit("lobby_title");
        reveal_strlit("Multiplayer Lobby");
        assert("lobby_title"@.len() == 11);
        assert("Multiplayer Lobby"@.len() == 17);
    }
    assert("Create Room"@.len() > 0 && "Create Room"@ != "lobby_create_room"@) by {
        reveal_strlit("lobby_create_room");
        reveal_strlit("Create Room");
        assert("lobby_create_room"@.len() == 17);
        assert("Create Room"@.len() == 11);
    }
    assert("Join Room"@.len() > 0 && "Join Room"@ != "lobby_join_room"@) by {
        reveal_strlit("lobby_join_room");
        reveal_strlit("Join Room");
        assert("lobby_join_room"@.len() == 15);
        assert("Join Room"@.len() == 9);
    }
    assert("Room Name"@.len() > 0 && "Room Name"@ != "lobby_room_name"@) by {
        reveal_strlit("lobby_room_name");
        reveal_strlit("Room Name");
        assert("lobby_room_name"@.len() == 15);
        assert("Room Name"@.len() == 9);
    }
    assert("Enter 6-char Room Code"@.len() > 0 && "Enter 6-char Room Code"@ != "lobby_enter_code"@) by {
        reveal_strlit("lobby_enter_code");
        reveal_strlit("Enter 6-char Room Code");
        assert("lobby_enter_code"@.len() == 16);
        assert("Enter 6-char Room Code"@.len() == 22);
    }
    assert("Player Nickname"@.len() > 0 && "Player Nickname"@ != "lobby_nickname"@) by {
        reveal_strlit("lobby_nickname");
        reveal_strlit("Player Nickname");
        assert("lobby_nickname"@.len() == 14);
        assert("Player Nickname"@.len() == 15);
    }
    assert("Ready"@.len() > 0 && "Ready"@ != "lobby_ready"@) by {
        reveal_strlit("lobby_ready");
        reveal_strlit("Ready");
        assert("lobby_ready"@.len() == 11);
        assert("Ready"@.len() == 5);
    }
    assert("Not Ready"@.len() > 0 && "Not Ready"@ != "lobby_unready"@) by {
        reveal_strlit("lobby_unready");
        reveal_strlit("Not Ready");
        assert("lobby_unready"@.len() == 13);
        assert("Not Ready"@.len() == 9);
    }
    assert("Start Match"@.len() > 0 && "Start Match"@ != "lobby_start"@) by {
        reveal_strlit("lobby_start");
        reveal_strlit("Start Match");
        assert("lobby_start"@.len() == 11);
        assert("Start Match"@.len() == 11);
        assert("lobby_start"@[0] != "Start Match"@[0]);
    }
    assert("Waiting for host to start..."@.len() > 0 && "Waiting for host to start..."@ != "lobby_waiting_host"@) by {
        reveal_strlit("lobby_waiting_host");
        reveal_strlit("Waiting for host to start...");
        assert("lobby_waiting_host"@.len() == 18);
        assert("Waiting for host to start..."@.len() == 28);
    }
    assert("Players in Room"@.len() > 0 && "Players in Room"@ != "lobby_players"@) by {
        reveal_strlit("lobby_players");
        reveal_strlit("Players in Room");
        assert("lobby_players"@.len() == 13);
        assert("Players in Room"@.len() == 15);
    }
    assert("Active Public Rooms"@.len() > 0 && "Active Public Rooms"@ != "lobby_public_rooms"@) by {
        reveal_strlit("lobby_public_rooms");
        reveal_strlit("Active Public Rooms");
        assert("lobby_public_rooms"@.len() == 18);
        assert("Active Public Rooms"@.len() == 19);
    }
    assert("No active rooms found. Create one to begin!"@.len() > 0 && "No active rooms found. Create one to begin!"@ != "lobby_no_rooms"@) by {
        reveal_strlit("lobby_no_rooms");
        reveal_strlit("No active rooms found. Create one to begin!");
        assert("lobby_no_rooms"@.len() == 14);
        assert("No active rooms found. Create one to begin!"@.len() == 43);
    }
    assert("AI NPC Bots"@.len() > 0 && "AI NPC Bots"@ != "bot_manager_title"@) by {
        reveal_strlit("bot_manager_title");
        reveal_strlit("AI NPC Bots");
        assert("bot_manager_title"@.len() == 17);
        assert("AI NPC Bots"@.len() == 11);
    }
    assert("+ Novice"@.len() > 0 && "+ Novice"@ != "bot_add_novice"@) by {
        reveal_strlit("bot_add_novice");
        reveal_strlit("+ Novice");
        assert("bot_add_novice"@.len() == 14);
        assert("+ Novice"@.len() == 8);
    }
    assert("+ Intermediate"@.len() > 0 && "+ Intermediate"@ != "bot_add_inter"@) by {
        reveal_strlit("bot_add_inter");
        reveal_strlit("+ Intermediate");
        assert("bot_add_inter"@.len() == 13);
        assert("+ Intermediate"@.len() == 14);
    }
    assert("+ Advanced"@.len() > 0 && "+ Advanced"@ != "bot_add_adv"@) by {
        reveal_strlit("bot_add_adv");
        reveal_strlit("+ Advanced");
        assert("bot_add_adv"@.len() == 11);
        assert("+ Advanced"@.len() == 10);
    }
    assert("+ Master"@.len() > 0 && "+ Master"@ != "bot_add_master"@) by {
        reveal_strlit("bot_add_master");
        reveal_strlit("+ Master");
        assert("bot_add_master"@.len() == 14);
        assert("+ Master"@.len() == 8);
    }
    assert("AI Decision Delay"@.len() > 0 && "AI Decision Delay"@ != "bot_speed_label"@) by {
        reveal_strlit("bot_speed_label");
        reveal_strlit("AI Decision Delay");
        assert("bot_speed_label"@.len() == 15);
        assert("AI Decision Delay"@.len() == 17);
    }
    assert("ms"@.len() > 0 && "ms"@ != "bot_speed_unit"@) by {
        reveal_strlit("bot_speed_unit");
        reveal_strlit("ms");
        assert("bot_speed_unit"@.len() == 14);
        assert("ms"@.len() == 2);
    }
    assert("Kick"@.len() > 0 && "Kick"@ != "bot_remove"@) by {
        reveal_strlit("bot_remove");
        reveal_strlit("Kick");
        assert("bot_remove"@.len() == 10);
        assert("Kick"@.len() == 4);
    }
    assert("Room Chat"@.len() > 0 && "Room Chat"@ != "tab_chat"@) by {
        reveal_strlit("tab_chat");
        reveal_strlit("Room Chat");
        assert("tab_chat"@.len() == 8);
        assert("Room Chat"@.len() == 9);
    }
    assert("Event Logs"@.len() > 0 && "Event Logs"@ != "tab_events"@) by {
        reveal_strlit("tab_events");
        reveal_strlit("Event Logs");
        assert("tab_events"@.len() == 10);
        assert("Event Logs"@.len() == 10);
        assert("tab_events"@[0] != "Event Logs"@[0]);
    }
    assert("Type a message or emoji..."@.len() > 0 && "Type a message or emoji..."@ != "chat_placeholder"@) by {
        reveal_strlit("chat_placeholder");
        reveal_strlit("Type a message or emoji...");
        assert("chat_placeholder"@.len() == 16);
        assert("Type a message or emoji..."@.len() == 26);
    }
    assert("Send"@.len() > 0 && "Send"@ != "chat_send"@) by {
        reveal_strlit("chat_send");
        reveal_strlit("Send");
        assert("chat_send"@.len() == 9);
        assert("Send"@.len() == 4);
    }
    assert("Custom Board Configuration"@.len() > 0 && "Custom Board Configuration"@ != "custom_title"@) by {
        reveal_strlit("custom_title");
        reveal_strlit("Custom Board Configuration");
        assert("custom_title"@.len() == 12);
        assert("Custom Board Configuration"@.len() == 26);
    }
    assert("Width (X)"@.len() > 0 && "Width (X)"@ != "custom_width"@) by {
        reveal_strlit("custom_width");
        reveal_strlit("Width (X)");
        assert("custom_width"@.len() == 12);
        assert("Width (X)"@.len() == 9);
    }
    assert("Height (Y)"@.len() > 0 && "Height (Y)"@ != "custom_height"@) by {
        reveal_strlit("custom_height");
        reveal_strlit("Height (Y)");
        assert("custom_height"@.len() == 13);
        assert("Height (Y)"@.len() == 10);
    }
    assert("Depth (Z)"@.len() > 0 && "Depth (Z)"@ != "custom_depth"@) by {
        reveal_strlit("custom_depth");
        reveal_strlit("Depth (Z)");
        assert("custom_depth"@.len() == 12);
        assert("Depth (Z)"@.len() == 9);
    }
    assert("Mine Count"@.len() > 0 && "Mine Count"@ != "custom_mines"@) by {
        reveal_strlit("custom_mines");
        reveal_strlit("Mine Count");
        assert("custom_mines"@.len() == 12);
        assert("Mine Count"@.len() == 10);
    }
    assert("Max Allowed Mines"@.len() > 0 && "Max Allowed Mines"@ != "custom_max_mines"@) by {
        reveal_strlit("custom_max_mines");
        reveal_strlit("Max Allowed Mines");
        assert("custom_max_mines"@.len() == 16);
        assert("Max Allowed Mines"@.len() == 17);
    }
    assert("Confirm & Apply"@.len() > 0 && "Confirm & Apply"@ != "custom_confirm"@) by {
        reveal_strlit("custom_confirm");
        reveal_strlit("Confirm & Apply");
        assert("custom_confirm"@.len() == 14);
        assert("Confirm & Apply"@.len() == 15);
    }
    assert("Cancel"@.len() > 0 && "Cancel"@ != "custom_cancel"@) by {
        reveal_strlit("custom_cancel");
        reveal_strlit("Cancel");
        assert("custom_cancel"@.len() == 13);
        assert("Cancel"@.len() == 6);
    }
    assert("Total Cells: "@.len() > 0 && "Total Cells: "@ != "custom_total_cells"@) by {
        reveal_strlit("custom_total_cells");
        reveal_strlit("Total Cells: ");
        assert("custom_total_cells"@.len() == 18);
        assert("Total Cells: "@.len() == 13);
    }
    assert("Safe Opening: "@.len() > 0 && "Safe Opening: "@ != "custom_safe_opening"@) by {
        reveal_strlit("custom_safe_opening");
        reveal_strlit("Safe Opening: ");
        assert("custom_safe_opening"@.len() == 19);
        assert("Safe Opening: "@.len() == 14);
    }
    assert("27 cells"@.len() > 0 && "27 cells"@ != "custom_cells_unit"@) by {
        reveal_strlit("custom_cells_unit");
        reveal_strlit("27 cells");
        assert("custom_cells_unit"@.len() == 17);
        assert("27 cells"@.len() == 8);
    }
    assert("READY"@.len() > 0 && "READY"@ != "lobby_status_ready"@) by {
        reveal_strlit("lobby_status_ready");
        reveal_strlit("READY");
        assert("lobby_status_ready"@.len() == 18);
        assert("READY"@.len() == 5);
    }
    assert("WAITING"@.len() > 0 && "WAITING"@ != "lobby_status_waiting"@) by {
        reveal_strlit("lobby_status_waiting");
        reveal_strlit("WAITING");
        assert("lobby_status_waiting"@.len() == 20);
        assert("WAITING"@.len() == 7);
    }
    assert("Fast (0.2s) ──── Slow (20.0s)"@.len() > 0 && "Fast (0.2s) ──── Slow (20.0s)"@ != "bot_speed_hint"@) by {
        reveal_strlit("bot_speed_hint");
        reveal_strlit("Fast (0.2s) ──── Slow (20.0s)");
        assert("bot_speed_hint"@.len() == 14);
        assert("Fast (0.2s) ──── Slow (20.0s)"@.len() == 29);
    }
    assert("Edit"@.len() > 0 && "Edit"@ != "btn_edit"@) by {
        reveal_strlit("btn_edit");
        reveal_strlit("Edit");
        assert("btn_edit"@.len() == 8);
        assert("Edit"@.len() == 4);
    }
    assert("Join"@.len() > 0 && "Join"@ != "btn_join"@) by {
        reveal_strlit("btn_join");
        reveal_strlit("Join");
        assert("btn_join"@.len() == 8);
        assert("Join"@.len() == 4);
    }
    assert("Trigger mathematical 3D topological solver to reveal safe cells or place flags:"@.len() > 0 && "Trigger mathematical 3D topological solver to reveal safe cells or place flags:"@ != "bot_panel_desc"@) by {
        reveal_strlit("bot_panel_desc");
        reveal_strlit("Trigger mathematical 3D topological solver to reveal safe cells or place flags:");
        assert("bot_panel_desc"@.len() == 14);
        assert("Trigger mathematical 3D topological solver to reveal safe cells or place flags:"@.len() == 79);
    }
    assert("Hint (Highlight)"@.len() > 0 && "Hint (Highlight)"@ != "bot_hint_btn"@) by {
        reveal_strlit("bot_hint_btn");
        reveal_strlit("Hint (Highlight)");
        assert("bot_hint_btn"@.len() == 12);
        assert("Hint (Highlight)"@.len() == 16);
    }
    assert("Step (Execute)"@.len() > 0 && "Step (Execute)"@ != "bot_step_btn"@) by {
        reveal_strlit("bot_step_btn");
        reveal_strlit("Step (Execute)");
        assert("bot_step_btn"@.len() == 12);
        assert("Step (Execute)"@.len() == 14);
    }
    assert("Account Login"@.len() > 0 && "Account Login"@ != "auth_login_title"@) by {
        reveal_strlit("auth_login_title");
        reveal_strlit("Account Login");
        assert("auth_login_title"@.len() == 16);
        assert("Account Login"@.len() == 13);
    }
    assert("Create Account"@.len() > 0 && "Create Account"@ != "auth_register_title"@) by {
        reveal_strlit("auth_register_title");
        reveal_strlit("Create Account");
        assert("auth_register_title"@.len() == 19);
        assert("Create Account"@.len() == 14);
    }
    assert("Username"@.len() > 0 && "Username"@ != "auth_username"@) by {
        reveal_strlit("auth_username");
        reveal_strlit("Username");
        assert("auth_username"@.len() == 13);
        assert("Username"@.len() == 8);
    }
    assert("Password"@.len() > 0 && "Password"@ != "auth_password"@) by {
        reveal_strlit("auth_password");
        reveal_strlit("Password");
        assert("auth_password"@.len() == 13);
        assert("Password"@.len() == 8);
    }
    assert("Log In"@.len() > 0 && "Log In"@ != "auth_submit_login"@) by {
        reveal_strlit("auth_submit_login");
        reveal_strlit("Log In");
        assert("auth_submit_login"@.len() == 17);
        assert("Log In"@.len() == 6);
    }
    assert("Sign Up"@.len() > 0 && "Sign Up"@ != "auth_submit_register"@) by {
        reveal_strlit("auth_submit_register");
        reveal_strlit("Sign Up");
        assert("auth_submit_register"@.len() == 20);
        assert("Sign Up"@.len() == 7);
    }
    assert("Don't have an account? Sign up"@.len() > 0 && "Don't have an account? Sign up"@ != "auth_switch_to_reg"@) by {
        reveal_strlit("auth_switch_to_reg");
        reveal_strlit("Don't have an account? Sign up");
        assert("auth_switch_to_reg"@.len() == 18);
        assert("Don't have an account? Sign up"@.len() == 30);
    }
    assert("Already have an account? Log in"@.len() > 0 && "Already have an account? Log in"@ != "auth_switch_to_login"@) by {
        reveal_strlit("auth_switch_to_login");
        reveal_strlit("Already have an account? Log in");
        assert("auth_switch_to_login"@.len() == 20);
        assert("Already have an account? Log in"@.len() == 31);
    }
    assert("💥 ALL PLAYERS ELIMINATED"@.len() > 0 && "💥 ALL PLAYERS ELIMINATED"@ != "game_over_title_lost"@) by {
        reveal_strlit("game_over_title_lost");
        reveal_strlit("💥 ALL PLAYERS ELIMINATED");
        assert("game_over_title_lost"@.len() == 20);
        assert("💥 ALL PLAYERS ELIMINATED"@.len() == 24);
    }
    assert("🏆 SECTOR CLEARED! VICTORY"@.len() > 0 && "🏆 SECTOR CLEARED! VICTORY"@ != "game_over_title_won"@) by {
        reveal_strlit("game_over_title_won");
        reveal_strlit("🏆 SECTOR CLEARED! VICTORY");
        assert("game_over_title_won"@.len() == 19);
        assert("🏆 SECTOR CLEARED! VICTORY"@.len() == 25);
    }
    assert("All squad operatives hit mines in this 3D Möbius space."@.len() > 0 && "All squad operatives hit mines in this 3D Möbius space."@ != "game_over_subtitle_lost"@) by {
        reveal_strlit("game_over_subtitle_lost");
        reveal_strlit("All squad operatives hit mines in this 3D Möbius space.");
        assert("game_over_subtitle_lost"@.len() == 23);
        assert("All squad operatives hit mines in this 3D Möbius space."@.len() == 55);
    }
    assert("All non-mine cells successfully neutralized!"@.len() > 0 && "All non-mine cells successfully neutralized!"@ != "game_over_subtitle_won"@) by {
        reveal_strlit("game_over_subtitle_won");
        reveal_strlit("All non-mine cells successfully neutralized!");
        assert("game_over_subtitle_won"@.len() == 22);
        assert("All non-mine cells successfully neutralized!"@.len() == 44);
    }
    assert("Match Final Leaderboard"@.len() > 0 && "Match Final Leaderboard"@ != "game_over_leaderboard"@) by {
        reveal_strlit("game_over_leaderboard");
        reveal_strlit("Match Final Leaderboard");
        assert("game_over_leaderboard"@.len() == 21);
        assert("Match Final Leaderboard"@.len() == 23);
    }
    assert("Rank"@.len() > 0 && "Rank"@ != "game_over_rank"@) by {
        reveal_strlit("game_over_rank");
        reveal_strlit("Rank");
        assert("game_over_rank"@.len() == 14);
        assert("Rank"@.len() == 4);
    }
    assert("Player"@.len() > 0 && "Player"@ != "game_over_player"@) by {
        reveal_strlit("game_over_player");
        reveal_strlit("Player");
        assert("game_over_player"@.len() == 16);
        assert("Player"@.len() == 6);
    }
    assert("Score"@.len() > 0 && "Score"@ != "game_over_score"@) by {
        reveal_strlit("game_over_score");
        reveal_strlit("Score");
        assert("game_over_score"@.len() == 15);
        assert("Score"@.len() == 5);
    }
    assert("Survived"@.len() > 0 && "Survived"@ != "game_over_status_survived"@) by {
        reveal_strlit("game_over_status_survived");
        reveal_strlit("Survived");
        assert("game_over_status_survived"@.len() == 25);
        assert("Survived"@.len() == 8);
    }
    assert("Eliminated"@.len() > 0 && "Eliminated"@ != "game_over_status_eliminated"@) by {
        reveal_strlit("game_over_status_eliminated");
        reveal_strlit("Eliminated");
        assert("game_over_status_eliminated"@.len() == 27);
        assert("Eliminated"@.len() == 10);
    }
    assert("Play Again"@.len() > 0 && "Play Again"@ != "game_over_play_again"@) by {
        reveal_strlit("game_over_play_again");
        reveal_strlit("Play Again");
        assert("game_over_play_again"@.len() == 20);
        assert("Play Again"@.len() == 10);
    }
    assert("Leave Room"@.len() > 0 && "Leave Room"@ != "game_over_leave_room"@) by {
        reveal_strlit("game_over_leave_room");
        reveal_strlit("Leave Room");
        assert("game_over_leave_room"@.len() == 20);
        assert("Leave Room"@.len() == 10);
    }
    assert("Inspect Board"@.len() > 0 && "Inspect Board"@ != "game_over_close"@) by {
        reveal_strlit("game_over_close");
        reveal_strlit("Inspect Board");
        assert("game_over_close"@.len() == 15);
        assert("Inspect Board"@.len() == 13);
    }
    assert("Revealed Cells"@.len() > 0 && "Revealed Cells"@ != "game_over_revealed"@) by {
        reveal_strlit("game_over_revealed");
        reveal_strlit("Revealed Cells");
        assert("game_over_revealed"@.len() == 18);
        assert("Revealed Cells"@.len() == 14);
    }
    assert("Time Elapsed"@.len() > 0 && "Time Elapsed"@ != "game_over_time"@) by {
        reveal_strlit("game_over_time");
        reveal_strlit("Time Elapsed");
        assert("game_over_time"@.len() == 14);
        assert("Time Elapsed"@.len() == 12);
    }
}

/// Every Chinese text is non-empty and differs from its key.
pub proof fn lemma_chinese_texts(key: Seq<char>)
    ensures
        chinese(key) matches Some(v) ==> v.len() > 0 && v != key,
{
    assert("3D 莫比乌斯环拓扑扫雷"@.len() > 0 && "3D 莫比乌斯环拓扑扫雷"@ != "app_title"@) by {
        reveal_strlit("app_title");
        reveal_strlit("3D 莫比乌斯环拓扑扫雷");
        assert("app_title"@.len() == 9);
        assert("3D 莫比乌斯环拓扑扫雷"@.len() == 12);
    }
    assert("非欧几里得空间立体多人即时扫雷"@.len() > 0 && "非欧几里得空间立体多人即时扫雷"@ != "app_subtitle"@) by {
        reveal_strlit("app_subtitle");
        reveal_strlit("非欧几里得空间立体多人即时扫雷");
        assert("app_subtitle"@.len() == 12);
        assert("非欧几里得空间立体多人即时扫雷"@.len() == 15);
    }
    assert("单人模式"@.len() > 0 && "单人模式"@ != "nav_single"@) by {
        reveal_strlit("nav_single");
        reveal_strlit("单人模式");
        assert("nav_single"@.len() == 10);
        assert("单人模式"@.len() == 4);
    }
    assert("多人即时竞速"@.len() > 0 && "多人即时竞速"@ != "nav_multi"@) by {
        reveal_strlit("nav_multi");
        reveal_strlit("多人即时竞速");
        assert("nav_multi"@.len() == 9);
        assert("多人即时竞速"@.len() == 6);
    }
    assert("排行榜与战绩"@.len() > 0 && "排行榜与战绩"@ != "nav_stats"@) by {
        reveal_strlit("nav_stats");
        reveal_strlit("排行榜与战绩");
        assert("nav_stats"@.len() == 9);
        assert("排行榜与战绩"@.len() == 6);
    }
    assert("登录账号"@.len() > 0 && "登录账号"@ != "nav_login"@) by {
        reveal_strlit("nav_login");
        reveal_strlit("登录账号");
        assert("nav_login"@.len() == 9);
        assert("登录账号"@.len() == 4);
    }
    assert("注册账号"@.len() > 0 && "注册账号"@ != "nav_register"@) by {
        reveal_strlit("nav_register");
        reveal_strlit("注册账号");
        assert("nav_register"@.len() == 12);
        assert("注册账号"@.len() == 4);
    }
    assert("退出登录"@.len() > 0 && "退出登录"@ != "nav_logout"@) by {
        reveal_strlit("nav_logout");
        reveal_strlit("退出登录");
        assert("nav_logout"@.len() == 10);
        assert("退出登录"@.len() == 4);
    }
    assert("游客玩家"@.len() > 0 && "游客玩家"@ != "nav_guest"@) by {
        reveal_strlit("nav_guest");
        reveal_strlit("游客玩家");
        assert("nav_guest"@.len() == 9);
        assert("游客玩家"@.len() == 4);
    }
    assert("初级"@.len() > 0 && "初级"@ != "diff_easy"@) by {
        reveal_strlit("diff_easy");
        reveal_strlit("初级");
        assert("diff_easy"@.len() == 9);
        assert("初级"@.len() == 2);
    }
    assert("中级"@.len() > 0 && "中级"@ != "diff_medium"@) by {
        reveal_strlit("diff_medium");
        reveal_strlit("中级");
        assert("diff_medium"@.len() == 11);
        assert("中级"@.len() == 2);
    }
    assert("高级"@.len() > 0 && "高级"@ != "diff_expert"@) by {
        reveal_strlit("diff_expert");
        reveal_strlit("高级");
        assert("diff_expert"@.len() == 11);
        assert("高级"@.len() == 2);
    }
    assert("自定义"@.len() > 0 && "自定义"@ != "diff_custom"@) by {
        reveal_strlit("diff_custom");
        reveal_strlit("自定义");
        assert("diff_custom"@.len() == 11);
        assert("自定义"@.len() == 3);
    }
    assert("用时"@.len() > 0 && "用时"@ != "hud_time"@) by {
        reveal_strlit("hud_time");
        reveal_strlit("用时");
        assert("hud_time"@.len() == 8);
        assert("用时"@.len() == 2);
    }
    assert("剩余雷数"@.len() > 0 && "剩余雷数"@ != "hud_mines"@) by {
        reveal_strlit("hud_mines");
        reveal_strlit("剩余雷数");
        assert("hud_mines"@.len() == 9);
        assert("剩余雷数"@.len() == 4);
    }
    assert("当前深度切片 (Z)"@.len() > 0 && "当前深度切片 (Z)"@ != "hud_layer"@) by {
        reveal_strlit("hud_layer");
        reveal_strlit("当前深度切片 (Z)");
        assert("hud_layer"@.len() == 9);
        assert("当前深度切片 (Z)"@.len() == 10);
    }
    assert("历史最佳 (PB)"@.len() > 0 && "历史最佳 (PB)"@ != "hud_pb"@) by {
        reveal_strlit("hud_pb");
        reveal_strlit("历史最佳 (PB)");
        assert("hud_pb"@.len() == 6);
        assert("历史最佳 (PB)"@.len() == 9);
    }
    assert("暂无记录"@.len() > 0 && "暂无记录"@ != "hud_no_pb"@) by {
        reveal_strlit("hud_no_pb");
        reveal_strlit("暂无记录");
        assert("hud_no_pb"@.len() == 9);
        assert("暂无记录"@.len() == 4);
    }
    assert("重新开始"@.len() > 0 && "重新开始"@ != "hud_restart"@) by {
        reveal_strlit("hud_restart");
        reveal_strlit("重新开始");
        assert("hud_restart"@.len() == 11);
        assert("重新开始"@.len() == 4);
    }
    assert("房间号"@.len() > 0 && "房间号"@ != "hud_room_code"@) by {
        reveal_strlit("hud_room_code");
        reveal_strlit("房间号");
        assert("hud_room_code"@.len() == 13);
        assert("房间号"@.len() == 3);
    }
    assert("复制房间号"@.len() > 0 && "复制房间号"@ != "hud_copy_code"@) by {
        reveal_strlit("hud_copy_code");
        reveal_strlit("复制房间号");
        assert("hud_copy_code"@.len() == 13);
        assert("复制房间号"@.len() == 5);
    }
    assert("已复制!"@.len() > 0 && "已复制!"@ != "hud_copied"@) by {
        reveal_strlit("hud_copied");
        reveal_strlit("已复制!");
        assert("hud_copied"@.len() == 10);
        assert("已复制!"@.len() == 4);
    }
    assert("得分"@.len() > 0 && "得分"@ != "hud_score"@) by {
        reveal_strlit("hud_score");
        reveal_strlit("得分");
        assert("hud_score"@.len() == 9);
        assert("得分"@.len() == 2);
    }
    assert("⛏️ 翻开模式"@.len() > 0 && "⛏️ 翻开模式"@ != "tool_dig"@) by {
        reveal_strlit("tool_dig");
        reveal_strlit("⛏️ 翻开模式");
        assert("tool_dig"@.len() == 8);
        assert("⛏️ 翻开模式"@.len() == 7);
    }
    assert("🚩 插旗模式"@.len() > 0 && "🚩 插旗模式"@ != "tool_flag"@) by {
        reveal_strlit("tool_flag");
        reveal_strlit("🚩 插旗模式");
        assert("tool_flag"@.len() == 9);
        assert("🚩 插旗模式"@.len() == 6);
    }
    assert("暂停"@.len() > 0 && "暂停"@ != "hud_pause"@) by {
        reveal_strlit("hud_pause");
        reveal_strlit("暂停");
        assert("hud_pause"@.len() == 9);
        assert("暂停"@.len() == 2);
    }
    assert("继续"@.len() > 0 && "继续"@ != "hud_resume"@) by {
        reveal_strlit("hud_resume");
        reveal_strlit("继续");
        assert("hud_resume"@.len() == 10);
        assert("继续"@.len() == 2);
    }
    assert("游戏已暂停 // 点击或按 [P] 键恢复"@.len() > 0 && "游戏已暂停 // 点击或按 [P] 键恢复"@ != "status_paused"@) by {
        reveal_strlit("status_paused");
        reveal_strlit("游戏已暂停 // 点击或按 [P] 键恢复");
        assert("status_paused"@.len() == 13);
        assert("游戏已暂停 // 点击或按 [P] 键恢复"@.len() == 21);
    }
    assert("◄ 上一层 (Z-)"@.len() > 0 && "◄ 上一层 (Z-)"@ != "mobile_prev_layer"@) by {
        reveal_strlit("mobile_prev_layer");
        reveal_strlit("◄ 上一层 (Z-)");
        assert("mobile_prev_layer"@.len() == 17);
        assert("◄ 上一层 (Z-)"@.len() == 10);
    }
    assert("下一层 (Z+) ►"@.len() > 0 && "下一层 (Z+) ►"@ != "mobile_next_layer"@) by {
        reveal_strlit("mobile_next_layer");
        reveal_strlit("下一层 (Z+) ►");
        assert("mobile_next_layer"@.len() == 17);
        assert("下一层 (Z+) ►"@.len() == 10);
    }
    assert("离开房间"@.len() > 0 && "离开房间"@ != "mp_leave_room"@) by {
        reveal_strlit("mp_leave_room");
        reveal_strlit("离开房间");
        assert("mp_leave_room"@.len() == 13);
        assert("离开房间"@.len() == 4);
    }
    assert("创建对局"@.len() > 0 && "创建对局"@ != "mp_create_match"@) by {
        reveal_strlit("mp_create_match");
        reveal_strlit("创建对局");
        assert("mp_create_match"@.len() == 15);
        assert("创建对局"@.len() == 4);
    }
    assert("莫比乌斯环左边界 (Y/Z 双重反转)"@.len() > 0 && "莫比乌斯环左边界 (Y/Z 双重反转)"@ != "guide_mobius_left"@) by {
        reveal_strlit("guide_mobius_left");
        reveal_strlit("莫比乌斯环左边界 (Y/Z 双重反转)");
        assert("guide_mobius_left"@.len() == 17);
        assert("莫比乌斯环左边界 (Y/Z 双重反转)"@.len() == 19);
    }
    assert("莫比乌斯环右边界 (Y/Z 双重反转)"@.len() > 0 && "莫比乌斯环右边界 (Y/Z 双重反转)"@ != "guide_mobius_right"@) by {
        reveal_strlit("guide_mobius_right");
        reveal_strlit("莫比乌斯环右边界 (Y/Z 双重反转)");
        assert("guide_mobius_right"@.len() == 18);
        assert("莫比乌斯环右边界 (Y/Z 双重反转)"@.len() == 19);
    }
    assert("Q/E 或滚轮: 切层 | 左键: 翻格 | 右键: 插旗 | 双击/双键: 快速排雷"@.len() > 0 && "Q/E 或滚轮: 切层 | 左键: 翻格 | 右键: 插旗 | 双击/双键: 快速排雷"@ != "guide_controls"@) by {
        reveal_strlit("guide_controls");
        reveal_strlit("Q/E 或滚轮: 切层 | 左键: 翻格 | 右键: 插旗 | 双击/双键: 快速排雷");
        assert("guide_controls"@.len() == 14);
        assert("Q/E 或滚轮: 切层 | 左键: 翻格 | 右键: 插旗 | 双击/双键: 快速排雷"@.len() == 43);
    }
    assert("3D 莫比乌斯环拓扑：左右跨界执行 Y 与 Z 轴双重反转，立体 26 邻域无缝连锁扩散。"@.len() > 0 && "3D 莫比乌斯环拓扑：左右跨界执行 Y 与 Z 轴双重反转，立体 26 邻域无缝连锁扩散。"@ != "global_banner_text"@) by {
        reveal_strlit("global_banner_text");
        reveal_strlit("3D 莫比乌斯环拓扑：左右跨界执行 Y 与 Z 轴双重反转，立体 26 邻域无缝连锁扩散。");
        assert("global_banner_text"@.len() == 18);
        assert("3D 莫比乌斯环拓扑：左右跨界执行 Y 与 Z 轴双重反转，立体 26 邻域无缝连锁扩散。"@.len() == 45);
    }
    assert("拓扑映射指南"@.len() > 0 && "拓扑映射指南"@ != "guide_title"@) by {
        reveal_strlit("guide_title");
        reveal_strlit("拓扑映射指南");
        assert("guide_title"@.len() == 11);
        assert("拓扑映射指南"@.len() == 6);
    }
    assert("• 纯 2D 切片：视图仅渲染深度 Z 平面，使用 Q/E 或滚轮自由切层。"@.len() > 0 && "• 纯 2D 切片：视图仅渲染深度 Z 平面，使用 Q/E 或滚轮自由切层。"@ != "guide_item_1"@) by {
        reveal_strlit("guide_item_1");
        reveal_strlit("• 纯 2D 切片：视图仅渲染深度 Z 平面，使用 Q/E 或滚轮自由切层。");
        assert("guide_item_1"@.len() == 12);
        assert("• 纯 2D 切片：视图仅渲染深度 Z 平面，使用 Q/E 或滚轮自由切层。"@.len() == 38);
    }
    assert("• 莫比乌斯缝合：穿越左右边界时，Y' = (H-1)-Y 且 Z' = (D-1)-Z。"@.len() > 0 && "• 莫比乌斯缝合：穿越左右边界时，Y' = (H-1)-Y 且 Z' = (D-1)-Z。"@ != "guide_item_2"@) by {
        reveal_strlit("guide_item_2");
        reveal_strlit("• 莫比乌斯缝合：穿越左右边界时，Y' = (H-1)-Y 且 Z' = (D-1)-Z。");
        assert("guide_item_2"@.len() == 12);
        assert("• 莫比乌斯缝合：穿越左右边界时，Y' = (H-1)-Y 且 Z' = (D-1)-Z。"@.len() == 45);
    }
    assert("• 26 邻域雷数：数字范围 0~26，统计立体三维所有有效相邻地雷。"@.len() > 0 && "• 26 邻域雷数：数字范围 0~26，统计立体三维所有有效相邻地雷。"@ != "guide_item_3"@) by {
        reveal_strlit("guide_item_3");
        reveal_strlit("• 26 邻域雷数：数字范围 0~26，统计立体三维所有有效相邻地雷。");
        assert("guide_item_3"@.len() == 12);
        assert("• 26 邻域雷数：数字范围 0~26，统计立体三维所有有效相邻地雷。"@.len() == 35);
    }
    assert("• 首击安全区：首击必出 27 格无雷立体连锁展开。"@.len() > 0 && "• 首击安全区：首击必出 27 格无雷立体连锁展开。"@ != "guide_item_4"@) by {
        reveal_strlit("guide_item_4");
        reveal_strlit("• 首击安全区：首击必出 27 格无雷立体连锁展开。");
        assert("guide_item_4"@.len() == 12);
        assert("• 首击安全区：首击必出 27 格无雷立体连锁展开。"@.len() == 26);
    }
    assert("点击任意格子开局（保证首击 27 邻域绝对安全）"@.len() > 0 && "点击任意格子开局（保证首击 27 邻域绝对安全）"@ != "status_ready"@) by {
        reveal_strlit("status_ready");
        reveal_strlit("点击任意格子开局（保证首击 27 邻域绝对安全）");
        assert("status_ready"@.len() == 12);
        assert("点击任意格子开局（保证首击 27 邻域绝对安全）"@.len() == 24);
    }
    assert("正在扫雷中..."@.len() > 0 && "正在扫雷中..."@ != "status_playing"@) by {
        reveal_strlit("status_playing");
        reveal_strlit("正在扫雷中...");
        assert("status_playing"@.len() == 14);
        assert("正在扫雷中..."@.len() == 8);
    }
    assert("排雷成功！恭喜通关！"@.len() > 0 && "排雷成功！恭喜通关！"@ != "status_won"@) by {
        reveal_strlit("status_won");
        reveal_strlit("排雷成功！恭喜通关！");
        assert("status_won"@.len() == 10);
        assert("排雷成功！恭喜通关！"@.len() == 10);
        assert("status_won"@[0] != "排雷成功！恭喜通关！"@[0]);
    }
    assert("触雷爆炸！本局结束。"@.len() > 0 && "触雷爆炸！本局结束。"@ != "status_lost"@) by {
        reveal_strlit("status_lost");
        reveal_strlit("触雷爆炸！本局结束。");
        assert("status_lost"@.len() == 11);
        assert("触雷爆炸！本局结束。"@.len() == 10);
    }
    assert("观战模式（您已触雷出局）"@.len() > 0 && "观战模式（您已触雷出局）"@ != "status_spectating"@) by {
        reveal_strlit("status_spectating");
        reveal_strlit("观战模式（您已触雷出局）");
        assert("status_spectating"@.len() == 17);
        assert("观战模式（您已触雷出局）"@.len() == 12);
    }
    assert("多人即时对战大厅"@.len() > 0 && "多人即时对战大厅"@ != "lobby_title"@) by {
        reveal_strlit("lobby_title");
        reveal_strlit("多人即时对战大厅");
        assert("lobby_title"@.len() == 11);
        assert("多人即时对战大厅"@.len() == 8);
    }
    assert("创建对战房间"@.len() > 0 && "创建对战房间"@ != "lobby_create_room"@) by {
        reveal_strlit("lobby_create_room");
        reveal_strlit("创建对战房间");
        assert("lobby_create_room"@.len() == 17);
        assert("创建对战房间"@.len() == 6);
    }
    assert("加入对战房间"@.len() > 0 && "加入对战房间"@ != "lobby_join_room"@) by {
        reveal_strlit("lobby_join_room");
        reveal_strlit("加入对战房间");
        assert("lobby_join_room"@.len() == 15);
        assert("加入对战房间"@.len() == 6);
    }
    assert("房间名称"@.len() > 0 && "房间名称"@ != "lobby_room_name"@) by {
        reveal_strlit("lobby_room_name");
        reveal_strlit("房间名称");
        assert("lobby_room_name"@.len() == 15);
        assert("房间名称"@.len() == 4);
    }
    assert("输入 6 位房间号码"@.len() > 0 && "输入 6 位房间号码"@ != "lobby_enter_code"@) by {
        reveal_strlit("lobby_enter_code");
        reveal_strlit("输入 6 位房间号码");
        assert("lobby_enter_code"@.len() == 16);
        assert("输入 6 位房间号码"@.len() == 10);
    }
    assert("玩家昵称"@.len() > 0 && "玩家昵称"@ != "lobby_nickname"@) by {
        reveal_strlit("lobby_nickname");
        reveal_strlit("玩家昵称");
        assert("lobby_nickname"@.len() == 14);
        assert("玩家昵称"@.len() == 4);
    }
    assert("准备就绪"@.len() > 0 && "准备就绪"@ != "lobby_ready"@) by {
        reveal_strlit("lobby_ready");
        reveal_strlit("准备就绪");
        assert("lobby_ready"@.len() == 11);
        assert("准备就绪"@.len() == 4);
    }
    assert("取消准备"@.len() > 0 && "取消准备"@ != "lobby_unready"@) by {
        reveal_strlit("lobby_unready");
        reveal_strlit("取消准备");
        assert("lobby_unready"@.len() == 13);
        assert("取消准备"@.len() == 4);
    }
    assert("开始对战"@.len() > 0 && "开始对战"@ != "lobby_start"@) by {
        reveal_strlit("lobby_start");
        reveal_strlit("开始对战");
        assert("lobby_start"@.len() == 11);
        assert("开始对战"@.len() == 4);
    }
    assert("等待房主开启对局..."@.len() > 0 && "等待房主开启对局..."@ != "lobby_waiting_host"@) by {
        reveal_strlit("lobby_waiting_host");
        reveal_strlit("等待房主开启对局...");
        assert("lobby_waiting_host"@.len() == 18);
        assert("等待房主开启对局..."@.len() == 11);
    }
    assert("房间内玩家"@.len() > 0 && "房间内玩家"@ != "lobby_players"@) by {
        reveal_strlit("lobby_players");
        reveal_strlit("房间内玩家");
        assert("lobby_players"@.len() == 13);
        assert("房间内玩家"@.len() == 5);
    }
    assert("当前活跃房间"@.len() > 0 && "当前活跃房间"@ != "lobby_public_rooms"@) by {
        reveal_strlit("lobby_public_rooms");
        reveal_strlit("当前活跃房间");
        assert("lobby_public_rooms"@.len() == 18);
        assert("当前活跃房间"@.len() == 6);
    }
    assert("暂无活跃房间，立即创建一个吧！"@.len() > 0 && "暂无活跃房间，立即创建一个吧！"@ != "lobby_no_rooms"@) by {
        reveal_strlit("lobby_no_rooms");
        reveal_strlit("暂无活跃房间，立即创建一个吧！");
        assert("lobby_no_rooms"@.len() == 14);
        assert("暂无活跃房间，立即创建一个吧！"@.len() == 15);
    }
    assert("AI NPC 机器人管理"@.len() > 0 && "AI NPC 机器人管理"@ != "bot_manager_title"@) by {
        reveal_strlit("bot_manager_title");
        reveal_strlit("AI NPC 机器人管理");
        assert("bot_manager_title"@.len() == 17);
        assert("AI NPC 机器人管理"@.len() == 12);
    }
    assert("+ 初级"@.len() > 0 && "+ 初级"@ != "bot_add_novice"@) by {
        reveal_strlit("bot_add_novice");
        reveal_strlit("+ 初级");
        assert("bot_add_novice"@.len() == 14);
        assert("+ 初级"@.len() == 4);
    }
    assert("+ 中级"@.len() > 0 && "+ 中级"@ != "bot_add_inter"@) by {
        reveal_strlit("bot_add_inter");
        reveal_strlit("+ 中级");
        assert("bot_add_inter"@.len() == 13);
        assert("+ 中级"@.len() == 4);
    }
    assert("+ 高级"@.len() > 0 && "+ 高级"@ != "bot_add_adv"@) by {
        reveal_strlit("bot_add_adv");
        reveal_strlit("+ 高级");
        assert("bot_add_adv"@.len() == 11);
        assert("+ 高级"@.len() == 4);
    }
    assert("+ 大师"@.len() > 0 && "+ 大师"@ != "bot_add_master"@) by {
        reveal_strlit("bot_add_master");
        reveal_strlit("+ 大师");
        assert("bot_add_master"@.len() == 14);
        assert("+ 大师"@.len() == 4);
    }
    assert("AI 反应延迟"@.len() > 0 && "AI 反应延迟"@ != "bot_speed_label"@) by {
        reveal_strlit("bot_speed_label");
        reveal_strlit("AI 反应延迟");
        assert("bot_speed_label"@.len() == 15);
        assert("AI 反应延迟"@.len() == 7);
    }
    assert("毫秒"@.len() > 0 && "毫秒"@ != "bot_speed_unit"@) by {
        reveal_strlit("bot_speed_unit");
        reveal_strlit("毫秒");
        assert("bot_speed_unit"@.len() == 14);
        assert("毫秒"@.len() == 2);
    }
    assert("请出"@.len() > 0 && "请出"@ != "bot_remove"@) by {
        reveal_strlit("bot_remove");
        reveal_strlit("请出");
        assert("bot_remove"@.len() == 10);
        assert("请出"@.len() == 2);
    }
    assert("房间聊天"@.len() > 0 && "房间聊天"@ != "tab_chat"@) by {
        reveal_strlit("tab_chat");
        reveal_strlit("房间聊天");
        assert("tab_chat"@.len() == 8);
        assert("房间聊天"@.len() == 4);
    }
    assert("对局动态"@.len() > 0 && "对局动态"@ != "tab_events"@) by {
        reveal_strlit("tab_events");
        reveal_strlit("对局动态");
        assert("tab_events"@.len() == 10);
        assert("对局动态"@.len() == 4);
    }
    assert("输入消息或表情..."@.len() > 0 && "输入消息或表情..."@ != "chat_placeholder"@) by {
        reveal_strlit("chat_placeholder");
        reveal_strlit("输入消息或表情...");
        assert("chat_placeholder"@.len() == 16);
        assert("输入消息或表情..."@.len() == 10);
    }
    assert("发送"@.len() > 0 && "发送"@ != "chat_send"@) by {
        reveal_strlit("chat_send");
        reveal_strlit("发送");
        assert("chat_send"@.len() == 9);
        assert("发送"@.len() == 2);
    }
    assert("自定义棋盘参数"@.len() > 0 && "自定义棋盘参数"@ != "custom_title"@) by {
        reveal_strlit("custom_title");
        reveal_strlit("自定义棋盘参数");
        assert("custom_title"@.len() == 12);
        assert("自定义棋盘参数"@.len() == 7);
    }
    assert("宽度 (X)"@.len() > 0 && "宽度 (X)"@ != "custom_width"@) by {
        reveal_strlit("custom_width");
        reveal_strlit("宽度 (X)");
        assert("custom_width"@.len() == 12);
        assert("宽度 (X)"@.len() == 6);
    }
    assert("高度 (Y)"@.len() > 0 && "高度 (Y)"@ != "custom_height"@) by {
        reveal_strlit("custom_height");
        reveal_strlit("高度 (Y)");
        assert("custom_height"@.len() == 13);
        assert("高度 (Y)"@.len() == 6);
    }
    assert("深度 (Z)"@.len() > 0 && "深度 (Z)"@ != "custom_depth"@) by {
        reveal_strlit("custom_depth");
        reveal_strlit("深度 (Z)");
        assert("custom_depth"@.len() == 12);
        assert("深度 (Z)"@.len() == 6);
    }
    assert("地雷总数"@.len() > 0 && "地雷总数"@ != "custom_mines"@) by {
        reveal_strlit("custom_mines");
        reveal_strlit("地雷总数");
        assert("custom_mines"@.len() == 12);
        assert("地雷总数"@.len() == 4);
    }
    assert("最大允许雷数"@.len() > 0 && "最大允许雷数"@ != "custom_max_mines"@) by {
        reveal_strlit("custom_max_mines");
        reveal_strlit("最大允许雷数");
        assert("custom_max_mines"@.len() == 16);
        assert("最大允许雷数"@.len() == 6);
    }
    assert("确认并应用"@.len() > 0 && "确认并应用"@ != "custom_confirm"@) by {
        reveal_strlit("custom_confirm");
        reveal_strlit("确认并应用");
        assert("custom_confirm"@.len() == 14);
        assert("确认并应用"@.len() == 5);
    }
    assert("取消"@.len() > 0 && "取消"@ != "custom_cancel"@) by {
        reveal_strlit("custom_cancel");
        reveal_strlit("取消");
        assert("custom_cancel"@.len() == 13);
        assert("取消"@.len() == 2);
    }
    assert("总格数: "@.len() > 0 && "总格数: "@ != "custom_total_cells"@) by {
        reveal_strlit("custom_total_cells");
        reveal_strlit("总格数: ");
        assert("custom_total_cells"@.len() == 18);
        assert("总格数: "@.len() == 5);
    }
    assert("首击安全区: "@.len() > 0 && "首击安全区: "@ != "custom_safe_opening"@) by {
        reveal_strlit("custom_safe_opening");
        reveal_strlit("首击安全区: ");
        assert("custom_safe_opening"@.len() == 19);
        assert("首击安全区: "@.len() == 7);
    }
    assert("27 格"@.len() > 0 && "27 格"@ != "custom_cells_unit"@) by {
        reveal_strlit("custom_cells_unit");
        reveal_strlit("27 格");
        assert("custom_cells_unit"@.len() == 17);
        assert("27 格"@.len() == 4);
    }
    assert("已就绪"@.len() > 0 && "已就绪"@ != "lobby_status_ready"@) by {
        reveal_strlit("lobby_status_ready");
        reveal_strlit("已就绪");
        assert("lobby_status_ready"@.len() == 18);
        assert("已就绪"@.len() == 3);
    }
    assert("等待中"@.len() > 0 && "等待中"@ != "lobby_status_waiting"@) by {
        reveal_strlit("lobby_status_waiting");
        reveal_strlit("等待中");
        assert("lobby_status_waiting"@.len() == 20);
        assert("等待中"@.len() == 3);
    }
    assert("极速 (0.2s) ──── 缓慢 (20.0s)"@.len() > 0 && "极速 (0.2s) ──── 缓慢 (20.0s)"@ != "bot_speed_hint"@) by {
        reveal_strlit("bot_speed_hint");
        reveal_strlit("极速 (0.2s) ──── 缓慢 (20.0s)");
        assert("bot_speed_hint"@.len() == 14);
        assert("极速 (0.2s) ──── 缓慢 (20.0s)"@.len() == 25);
    }
    assert("修改"@.len() > 0 && "修改"@ != "btn_edit"@) by {
        reveal_strlit("btn_edit");
        reveal_strlit("修改");
        assert("btn_edit"@.len() == 8);
        assert("修改"@.len() == 2);
    }
    assert("加入"@.len() > 0 && "加入"@ != "btn_join"@) by {
        reveal_strlit("btn_join");
        reveal_strlit("加入");
        assert("btn_join"@.len() == 8);
        assert("加入"@.len() == 2);
    }
    assert("呼叫三维莫比乌斯拓扑求解器进行推理走棋或排雷："@.len() > 0 && "呼叫三维莫比乌斯拓扑求解器进行推理走棋或排雷："@ != "bot_panel_desc"@) by {
        reveal_strlit("bot_panel_desc");
        reveal_strlit("呼叫三维莫比乌斯拓扑求解器进行推理走棋或排雷：");
        assert("bot_panel_desc"@.len() == 14);
        assert("呼叫三维莫比乌斯拓扑求解器进行推理走棋或排雷："@.len() == 23);
    }
    assert("提示 (仅高亮)"@.len() > 0 && "提示 (仅高亮)"@ != "bot_hint_btn"@) by {
        reveal_strlit("bot_hint_btn");
        reveal_strlit("提示 (仅高亮)");
        assert("bot_hint_btn"@.len() == 12);
        assert("提示 (仅高亮)"@.len() == 8);
    }
    assert("走棋 (自动执行)"@.len() > 0 && "走棋 (自动执行)"@ != "bot_step_btn"@) by {
        reveal_strlit("bot_step_btn");
        reveal_strlit("走棋 (自动执行)");
        assert("bot_step_btn"@.len() == 12);
        assert("走棋 (自动执行)"@.len() == 9);
    }
    assert("玩家账号登录"@.len() > 0 && "玩家账号登录"@ != "auth_login_title"@) by {
        reveal_strlit("auth_login_title");
        reveal_strlit("玩家账号登录");
        assert("auth_login_title"@.len() == 16);
        assert("玩家账号登录"@.len() == 6);
    }
    assert("新玩家账号注册"@.len() > 0 && "新玩家账号注册"@ != "auth_register_title"@) by {
        reveal_strlit("auth_register_title");
        reveal_strlit("新玩家账号注册");
        assert("auth_register_title"@.len() == 19);
        assert("新玩家账号注册"@.len() == 7);
    }
    assert("用户名"@.len() > 0 && "用户名"@ != "auth_username"@) by {
        reveal_strlit("auth_username");
        reveal_strlit("用户名");
        assert("auth_username"@.len() == 13);
        assert("用户名"@.len() == 3);
    }
    assert("密码"@.len() > 0 && "密码"@ != "auth_password"@) by {
        reveal_strlit("auth_password");
        reveal_strlit("密码");
        assert("auth_password"@.len() == 13);
        assert("密码"@.len() == 2);
    }
    assert("立即登录"@.len() > 0 && "立即登录"@ != "auth_submit_login"@) by {
        reveal_strlit("auth_submit_login");
        reveal_strlit("立即登录");
        assert("auth_submit_login"@.len() == 17);
        assert("立即登录"@.len() == 4);
    }
    assert("完成注册"@.len() > 0 && "完成注册"@ != "auth_submit_register"@) by {
        reveal_strlit("auth_submit_register");
        reveal_strlit("完成注册");
        assert("auth_submit_register"@.len() == 20);
        assert("完成注册"@.len() == 4);
    }
    assert("还没有账号？立即注册"@.len() > 0 && "还没有账号？立即注册"@ != "auth_switch_to_reg"@) by {
        reveal_strlit("auth_switch_to_reg");
        reveal_strlit("还没有账号？立即注册");
        assert("auth_switch_to_reg"@.len() == 18);
        assert("还没有账号？立即注册"@.len() == 10);
    }
    assert("已有账号？直接登录"@.len() > 0 && "已有账号？直接登录"@ != "auth_switch_to_login"@) by {
        reveal_strlit("auth_switch_to_login");
        reveal_strlit("已有账号？直接登录");
        assert("auth_switch_to_login"@.len() == 20);
        assert("已有账号？直接登录"@.len() == 9);
    }
    assert("💥 全员触雷出局！本局结束"@.len() > 0 && "💥 全员触雷出局！本局结束"@ != "game_over_title_lost"@) by {
        reveal_strlit("game_over_title_lost");
        reveal_strlit("💥 全员触雷出局！本局结束");
        assert("game_over_title_lost"@.len() == 20);
        assert("💥 全员触雷出局！本局结束"@.len() == 13);
    }
    assert("🏆 雷区已全部排净！胜利结算"@.len() > 0 && "🏆 雷区已全部排净！胜利结算"@ != "game_over_title_won"@) by {
        reveal_strlit("game_over_title_won");
        reveal_strlit("🏆 雷区已全部排净！胜利结算");
        assert("game_over_title_won"@.len() == 19);
        assert("🏆 雷区已全部排净！胜利结算"@.len() == 14);
    }
    assert("所有排雷队员均在莫比乌斯环空间内触雷出局。"@.len() > 0 && "所有排雷队员均在莫比乌斯环空间内触雷出局。"@ != "game_over_subtitle_lost"@) by {
        reveal_strlit("game_over_subtitle_lost");
        reveal_strlit("所有排雷队员均在莫比乌斯环空间内触雷出局。");
        assert("game_over_subtitle_lost"@.len() == 23);
        assert("所有排雷队员均在莫比乌斯环空间内触雷出局。"@.len() == 21);
    }
    assert("已成功完成该莫比乌斯三维空间的全部非雷区翻开！"@.len() > 0 && "已成功完成该莫比乌斯三维空间的全部非雷区翻开！"@ != "game_over_subtitle_won"@) by {
        reveal_strlit("game_over_subtitle_won");
        reveal_strlit("已成功完成该莫比乌斯三维空间的全部非雷区翻开！");
        assert("game_over_subtitle_won"@.len() == 22);
        assert("已成功完成该莫比乌斯三维空间的全部非雷区翻开！"@.len() == 23);
    }
    assert("本局积分排行榜"@.len() > 0 && "本局积分排行榜"@ != "game_over_leaderboard"@) by {
        reveal_strlit("game_over_leaderboard");
        reveal_strlit("本局积分排行榜");
        assert("game_over_leaderboard"@.len() == 21);
        assert("本局积分排行榜"@.len() == 7);
    }
    assert("排名"@.len() > 0 && "排名"@ != "game_over_rank"@) by {
        reveal_strlit("game_over_rank");
        reveal_strlit("排名");
        assert("game_over_rank"@.len() == 14);
        assert("排名"@.len() == 2);
    }
    assert("玩家"@.len() > 0 && "玩家"@ != "game_over_player"@) by {
        reveal_strlit("game_over_player");
        reveal_strlit("玩家");
        assert("game_over_player"@.len() == 16);
        assert("玩家"@.len() == 2);
    }
    assert("得分"@.len() > 0 && "得分"@ != "game_over_score"@) by {
        reveal_strlit("game_over_score");
        reveal_strlit("得分");
        assert("game_over_score"@.len() == 15);
        assert("得分"@.len() == 2);
    }
    assert("存活"@.len() > 0 && "存活"@ != "game_over_status_survived"@) by {
        reveal_strlit("game_over_status_survived");
        reveal_strlit("存活");
        assert("game_over_status_survived"@.len() == 25);
        assert("存活"@.len() == 2);
    }
    assert("触雷出局"@.len() > 0 && "触雷出局"@ != "game_over_status_eliminated"@) by {
        reveal_strlit("game_over_status_eliminated");
        reveal_strlit("触雷出局");
        assert("game_over_status_eliminated"@.len() == 27);
        assert("触雷出局"@.len() == 4);
    }
    assert("再来一局"@.len() > 0 && "再来一局"@ != "game_over_play_again"@) by {
        reveal_strlit("game_over_play_again");
        reveal_strlit("再来一局");
        assert("game_over_play_again"@.len() == 20);
        assert("再来一局"@.len() == 4);
    }
    assert("离开房间"@.len() > 0 && "离开房间"@ != "game_over_leave_room"@) by {
        reveal_strlit("game_over_leave_room");
        reveal_strlit("离开房间");
        assert("game_over_leave_room"@.len() == 20);
        assert("离开房间"@.len() == 4);
    }
    assert("查看棋盘"@.len() > 0 && "查看棋盘"@ != "game_over_close"@) by {
        reveal_strlit("game_over_close");
        reveal_strlit("查看棋盘");
        assert("game_over_close"@.len() == 15);
        assert("查看棋盘"@.len() == 4);
    }
    assert("已揭开格子"@.len() > 0 && "已揭开格子"@ != "game_over_revealed"@) by {
        reveal_strlit("game_over_revealed");
        reveal_strlit("已揭开格子");
        assert("game_over_revealed"@.len() == 18);
        assert("已揭开格子"@.len() == 5);
    }
    assert("对局用时"@.len() > 0 && "对局用时"@ != "game_over_time"@) by {
        reveal_strlit("game_over_time");
        reveal_strlit("对局用时");
        assert("game_over_time"@.len() == 14);
        assert("对局用时"@.len() == 4);
    }
}

/// A key is left as it is in English exactly when it is in Chinese.
pub proof fn lemma_untranslated_alike(key: Seq<char>)
    ensures
        interface_text(Language::En, key) == key <==> interface_text(Language::Zh, key) == key,
{
    lemma_tables_share_keys(key);
    lemma_english_texts(key);
    lemma_chinese_texts(key);
}

/// The text of `key` in `lang`: its entry in the table, or the key itself.
pub open spec fn interface_text(lang: Language, key: Seq<char>) -> Seq<char> {
    let entry = match lang {
        Language::En => english(key),
        Language::Zh => chinese(key),
    };
    match entry {
        Some(v) => v,
        None => key,
    }
}

/// The text of `key` in `lang`, or `key` itself where the table has none.
pub fn t<'a>(lang: Language, key: &'a str) -> (r: &'a str)
    ensures
        r@ == interface_text(lang, key@),
{
    match lang {
        Language::En => t_english(key),
        Language::Zh => t_chinese(key),
    }
}

/// The English text of a key, where the table has one.
pub open spec fn english(key: Seq<char>) -> Option<Seq<char>> {
    if key == "app_title"@ {
        Some("3D Möbius Minesweeper"@)
    } else if key == "app_subtitle"@ {
        Some("Topological Non-Euclidean Multiplayer Minesweeper"@)
    } else if key == "nav_single"@ {
        Some("Single-Player"@)
    } else if key == "nav_multi"@ {
        Some("Multiplayer Battle"@)
    } else if key == "nav_stats"@ {
        Some("Leaderboard & Stats"@)
    } else if key == "nav_login"@ {
        Some("Sign In"@)
    } else if key == "nav_register"@ {
        Some("Register"@)
    } else if key == "nav_logout"@ {
        Some("Sign Out"@)
    } else if key == "nav_guest"@ {
        Some("Guest Player"@)
    } else if key == "diff_easy"@ {
        Some("Easy"@)
    } else if key == "diff_medium"@ {
        Some("Medium"@)
    } else if key == "diff_expert"@ {
        Some("Expert"@)
    } else if key == "diff_custom"@ {
        Some("Custom"@)
    } else if key == "hud_time"@ {
        Some("Time"@)
    } else if key == "hud_mines"@ {
        Some("Mines"@)
    } else if key == "hud_layer"@ {
        Some("Depth Layer (Z)"@)
    } else if key == "hud_pb"@ {
        Some("Personal Best"@)
    } else if key == "hud_no_pb"@ {
        Some("No Record"@)
    } else if key == "hud_restart"@ {
        Some("Restart Game"@)
    } else if key == "hud_room_code"@ {
        Some("Room Code"@)
    } else if key == "hud_copy_code"@ {
        Some("Copy Code"@)
    } else if key == "hud_copied"@ {
        Some("Copied!"@)
    } else if key == "hud_score"@ {
        Some("Score"@)
    } else if key == "tool_dig"@ {
        Some("⛏️ Dig Mode"@)
    } else if key == "tool_flag"@ {
        Some("🚩 Flag Mode"@)
    } else if key == "hud_pause"@ {
        Some("Pause"@)
    } else if key == "hud_resume"@ {
        Some("Resume"@)
    } else if key == "status_paused"@ {
        Some("Game Paused // Click or Press [P] to Resume"@)
    } else if key == "mobile_prev_layer"@ {
        Some("◄ Prev (Z-)"@)
    } else if key == "mobile_next_layer"@ {
        Some("Next (Z+) ►"@)
    } else if key == "mp_leave_room"@ {
        Some("Leave Room"@)
    } else if key == "mp_create_match"@ {
        Some("Create Match"@)
    } else if key == "guide_mobius_left"@ {
        Some("Möbius Seam Left (Inverts Y & Z)"@)
    } else if key == "guide_mobius_right"@ {
        Some("Möbius Seam Right (Inverts Y & Z)"@)
    } else if key == "guide_controls"@ {
        Some("Q/E or Scroll: Switch Layer | Left Click: Reveal | Right Click: Flag | Chord Click: Quick Reveal"@)
    } else if key == "global_banner_text"@ {
        Some("3D Möbius Topology: Crossing X=0 / X=W-1 double-inverts Y & Z axes. 26-neighborhood 3D Flood Fill active."@)
    } else if key == "guide_title"@ {
        Some("Topology Guide"@)
    } else if key == "guide_item_1"@ {
        Some("• Slice Projection: The viewport displays the 2D layer Z. Navigate depth with Q/E or mouse wheel."@)
    } else if key == "guide_item_2"@ {
        Some("• Möbius Seam: Crossing left/right inverts Y: (H-1)-Y and Z: (D-1)-Z."@)
    } else if key == "guide_item_3"@ {
        Some("• 26-Neighborhood: Numbers range from 0 to 26 based on all adjacent cells across 3D space."@)
    } else if key == "guide_item_4"@ {
        Some("• Safe Opening: First click guarantees a 27-cell clean opening."@)
    } else if key == "status_ready"@ {
        Some("Click any cell to start (Safe 27-cell opening guaranteed)"@)
    } else if key == "status_playing"@ {
        Some("Game in progress..."@)
    } else if key == "status_won"@ {
        Some("Victory! Board Cleared!"@)
    } else if key == "status_lost"@ {
        Some("Game Over! You hit a mine."@)
    } else if key == "status_spectating"@ {
        Some("Spectating Mode (Eliminated)"@)
    } else if key == "lobby_title"@ {
        Some("Multiplayer Lobby"@)
    } else if key == "lobby_create_room"@ {
        Some("Create Room"@)
    } else if key == "lobby_join_room"@ {
        Some("Join Room"@)
    } else if key == "lobby_room_name"@ {
        Some("Room Name"@)
    } else if key == "lobby_enter_code"@ {
        Some("Enter 6-char Room Code"@)
    } else if key == "lobby_nickname"@ {
        Some("Player Nickname"@)
    } else if key == "lobby_ready"@ {
        Some("Ready"@)
    } else if key == "lobby_unready"@ {
        Some("Not Ready"@)
    } else if key == "lobby_start"@ {
        Some("Start Match"@)
    } else if key == "lobby_waiting_host"@ {
        Some("Waiting for host to start..."@)
    } else if key == "lobby_players"@ {
        Some("Players in Room"@)
    } else if key == "lobby_public_rooms"@ {
        Some("Active Public Rooms"@)
    } else if key == "lobby_no_rooms"@ {
        Some("No active rooms found. Create one to begin!"@)
    } else if key == "bot_manager_title"@ {
        Some("AI NPC Bots"@)
    } else if key == "bot_add_novice"@ {
        Some("+ Novice"@)
    } else if key == "bot_add_inter"@ {
        Some("+ Intermediate"@)
    } else if key == "bot_add_adv"@ {
        Some("+ Advanced"@)
    } else if key == "bot_add_master"@ {
        Some("+ Master"@)
    } else if key == "bot_speed_label"@ {
        Some("AI Decision Delay"@)
    } else if key == "bot_speed_unit"@ {
        Some("ms"@)
    } else if key == "bot_remove"@ {
        Some("Kick"@)
    } else if key == "tab_chat"@ {
        Some("Room Chat"@)
    } else if key == "tab_events"@ {
        Some("Event Logs"@)
    } else if key == "chat_placeholder"@ {
        Some("Type a message or emoji..."@)
    } else if key == "chat_send"@ {
        Some("Send"@)
    } else if key == "custom_title"@ {
        Some("Custom Board Configuration"@)
    } else if key == "custom_width"@ {
        Some("Width (X)"@)
    } else if key == "custom_height"@ {
        Some("Height (Y)"@)
    } else if key == "custom_depth"@ {
        Some("Depth (Z)"@)
    } else if key == "custom_mines"@ {
        Some("Mine Count"@)
    } else if key == "custom_max_mines"@ {
        Some("Max Allowed Mines"@)
    } else if key == "custom_confirm"@ {
        Some("Confirm & Apply"@)
    } else if key == "custom_cancel"@ {
        Some("Cancel"@)
    } else if key == "custom_total_cells"@ {
        Some("Total Cells: "@)
    } else if key == "custom_safe_opening"@ {
        Some("Safe Opening: "@)
    } else if key == "custom_cells_unit"@ {
        Some("27 cells"@)
    } else if key == "lobby_status_ready"@ {
        Some("READY"@)
    } else if key == "lobby_status_waiting"@ {
        Some("WAITING"@)
    } else if key == "bot_speed_hint"@ {
        Some("Fast (0.2s) ──── Slow (20.0s)"@)
    } else if key == "btn_edit"@ {
        Some("Edit"@)
    } else if key == "btn_join"@ {
        Some("Join"@)
    } else if key == "bot_panel_desc"@ {
        Some("Trigger mathematical 3D topological solver to reveal safe cells or place flags:"@)
    } else if key == "bot_hint_btn"@ {
        Some("Hint (Highlight)"@)
    } else if key == "bot_step_btn"@ {
        Some("Step (Execute)"@)
    } else if key == "auth_login_title"@ {
        Some("Account Login"@)
    } else if key == "auth_register_title"@ {
        Some("Create Account"@)
    } else if key == "auth_username"@ {
        Some("Username"@)
    } else if key == "auth_password"@ {
        Some("Password"@)
    } else if key == "auth_submit_login"@ {
        Some("Log In"@)
    } else if key == "auth_submit_register"@ {
        Some("Sign Up"@)
    } else if key == "auth_switch_to_reg"@ {
        Some("Don't have an account? Sign up"@)
    } else if key == "auth_switch_to_login"@ {
        Some("Already have an account? Log in"@)
    } else if key == "game_over_title_lost"@ {
        Some("💥 ALL PLAYERS ELIMINATED"@)
    } else if key == "game_over_title_won"@ {
        Some("🏆 SECTOR CLEARED! VICTORY"@)
    } else if key == "game_over_subtitle_lost"@ {
        Some("All squad operatives hit mines in this 3D Möbius space."@)
    } else if key == "game_over_subtitle_won"@ {
        Some("All non-mine cells successfully neutralized!"@)
    } else if key == "game_over_leaderboard"@ {
        Some("Match Final Leaderboard"@)
    } else if key == "game_over_rank"@ {
        Some("Rank"@)
    } else if key == "game_over_player"@ {
        Some("Player"@)
    } else if key == "game_over_score"@ {
        Some("Score"@)
    } else if key == "game_over_status_survived"@ {
        Some("Survived"@)
    } else if key == "game_over_status_eliminated"@ {
        Some("Eliminated"@)
    } else if key == "game_over_play_again"@ {
        Some("Play Again"@)
    } else if key == "game_over_leave_room"@ {
        Some("Leave Room"@)
    } else if key == "game_over_close"@ {
        Some("Inspect Board"@)
    } else if key == "game_over_revealed"@ {
        Some("Revealed Cells"@)
    } else if key == "game_over_time"@ {
        Some("Time Elapsed"@)
    } else {
        None
    }
}

/// The Chinese text of a key, where the table has one.
pub open spec fn chinese(key: Seq<char>) -> Option<Seq<char>> {
    if key == "app_title"@ {
        Some("3D 莫比乌斯环拓扑扫雷"@)
    } else if key == "app_subtitle"@ {
        Some("非欧几里得空间立体多人即时扫雷"@)
    } else if key == "nav_single"@ {
        Some("单人模式"@)
    } else if key == "nav_multi"@ {
        Some("多人即时竞速"@)
    } else if key == "nav_stats"@ {
        Some("排行榜与战绩"@)
    } else if key == "nav_login"@ {
        Some("登录账号"@)
    } else if key == "nav_register"@ {
        Some("注册账号"@)
    } else if key == "nav_logout"@ {
        Some("退出登录"@)
    } else if key == "nav_guest"@ {
        Some("游客玩家"@)
    } else if key == "diff_easy"@ {
        Some("初级"@)
    } else if key == "diff_medium"@ {
        Some("中级"@)
    } else if key == "diff_expert"@ {
        Some("高级"@)
    } else if key == "diff_custom"@ {
        Some("自定义"@)
    } else if key == "hud_time"@ {
        Some("用时"@)
    } else if key == "hud_mines"@ {
        Some("剩余雷数"@)
    } else if key == "hud_layer"@ {
        Some("当前深度切片 (Z)"@)
    } else if key == "hud_pb"@ {
        Some("历史最佳 (PB)"@)
    } else if key == "hud_no_pb"@ {
        Some("暂无记录"@)
    } else if key == "hud_restart"@ {
        Some("重新开始"@)
    } else if key == "hud_room_code"@ {
        Some("房间号"@)
    } else if key == "hud_copy_code"@ {
        Some("复制房间号"@)
    } else if key == "hud_copied"@ {
        Some("已复制!"@)
    } else if key == "hud_score"@ {
        Some("得分"@)
    } else if key == "tool_dig"@ {
        Some("⛏️ 翻开模式"@)
    } else if key == "tool_flag"@ {
        Some("🚩 插旗模式"@)
    } else if key == "hud_pause"@ {
        Some("暂停"@)
    } else if key == "hud_resume"@ {
        Some("继续"@)
    } else if key == "status_paused"@ {
        Some("游戏已暂停 // 点击或按 [P] 键恢复"@)
    } else if key == "mobile_prev_layer"@ {
        Some("◄ 上一层 (Z-)"@)
    } else if key == "mobile_next_layer"@ {
        Some("下一层 (Z+) ►"@)
    } else if key == "mp_leave_room"@ {
        Some("离开房间"@)
    } else if key == "mp_create_match"@ {
        Some("创建对局"@)
    } else if key == "guide_mobius_left"@ {
        Some("莫比乌斯环左边界 (Y/Z 双重反转)"@)
    } else if key == "guide_mobius_right"@ {
        Some("莫比乌斯环右边界 (Y/Z 双重反转)"@)
    } else if key == "guide_controls"@ {
        Some("Q/E 或滚轮: 切层 | 左键: 翻格 | 右键: 插旗 | 双击/双键: 快速排雷"@)
    } else if key == "global_banner_text"@ {
        Some("3D 莫比乌斯环拓扑：左右跨界执行 Y 与 Z 轴双重反转，立体 26 邻域无缝连锁扩散。"@)
    } else if key == "guide_title"@ {
        Some("拓扑映射指南"@)
    } else if key == "guide_item_1"@ {
        Some("• 纯 2D 切片：视图仅渲染深度 Z 平面，使用 Q/E 或滚轮自由切层。"@)
    } else if key == "guide_item_2"@ {
        Some("• 莫比乌斯缝合：穿越左右边界时，Y' = (H-1)-Y 且 Z' = (D-1)-Z。"@)
    } else if key == "guide_item_3"@ {
        Some("• 26 邻域雷数：数字范围 0~26，统计立体三维所有有效相邻地雷。"@)
    } else if key == "guide_item_4"@ {
        Some("• 首击安全区：首击必出 27 格无雷立体连锁展开。"@)
    } else if key == "status_ready"@ {
        Some("点击任意格子开局（保证首击 27 邻域绝对安全）"@)
    } else if key == "status_playing"@ {
        Some("正在扫雷中..."@)
    } else if key == "status_won"@ {
        Some("排雷成功！恭喜通关！"@)
    } else if key == "status_lost"@ {
        Some("触雷爆炸！本局结束。"@)
    } else if key == "status_spectating"@ {
        Some("观战模式（您已触雷出局）"@)
    } else if key == "lobby_title"@ {
        Some("多人即时对战大厅"@)
    } else if key == "lobby_create_room"@ {
        Some("创建对战房间"@)
    } else if key == "lobby_join_room"@ {
        Some("加入对战房间"@)
    } else if key == "lobby_room_name"@ {
        Some("房间名称"@)
    } else if key == "lobby_enter_code"@ {
        Some("输入 6 位房间号码"@)
    } else if key == "lobby_nickname"@ {
        Some("玩家昵称"@)
    } else if key == "lobby_ready"@ {
        Some("准备就绪"@)
    } else if key == "lobby_unready"@ {
        Some("取消准备"@)
    } else if key == "lobby_start"@ {
        Some("开始对战"@)
    } else if key == "lobby_waiting_host"@ {
        Some("等待房主开启对局..."@)
    } else if key == "lobby_players"@ {
        Some("房间内玩家"@)
    } else if key == "lobby_public_rooms"@ {
        Some("当前活跃房间"@)
    } else if key == "lobby_no_rooms"@ {
        Some("暂无活跃房间，立即创建一个吧！"@)
    } else if key == "bot_manager_title"@ {
        Some("AI NPC 机器人管理"@)
    } else if key == "bot_add_novice"@ {
        Some("+ 初级"@)
    } else if key == "bot_add_inter"@ {
        Some("+ 中级"@)
    } else if key == "bot_add_adv"@ {
        Some("+ 高级"@)
    } else if key == "bot_add_master"@ {
        Some("+ 大师"@)
    } else if key == "bot_speed_label"@ {
        Some("AI 反应延迟"@)
    } else if key == "bot_speed_unit"@ {
        Some("毫秒"@)
    } else if key == "bot_remove"@ {
        Some("请出"@)
    } else if key == "tab_chat"@ {
        Some("房间聊天"@)
    } else if key == "tab_events"@ {
        Some("对局动态"@)
    } else if key == "chat_placeholder"@ {
        Some("输入消息或表情..."@)
    } else if key == "chat_send"@ {
        Some("发送"@)
    } else if key == "custom_title"@ {
        Some("自定义棋盘参数"@)
    } else if key == "custom_width"@ {
        Some("宽度 (X)"@)
    } else if key == "custom_height"@ {
        Some("高度 (Y)"@)
    } else if key == "custom_depth"@ {
        Some("深度 (Z)"@)
    } else if key == "custom_mines"@ {
        Some("地雷总数"@)
    } else if key == "custom_max_mines"@ {
        Some("最大允许雷数"@)
    } else if key == "custom_confirm"@ {
        Some("确认并应用"@)
    } else if key == "custom_cancel"@ {
        Some("取消"@)
    } else if key == "custom_total_cells"@ {
        Some("总格数: "@)
    } else if key == "custom_safe_opening"@ {
        Some("首击安全区: "@)
    } else if key == "custom_cells_unit"@ {
        Some("27 格"@)
    } else if key == "lobby_status_ready"@ {
        Some("已就绪"@)
    } else if key == "lobby_status_waiting"@ {
        Some("等待中"@)
    } else if key == "bot_speed_hint"@ {
        Some("极速 (0.2s) ──── 缓慢 (20.0s)"@)
    } else if key == "btn_edit"@ {
        Some("修改"@)
    } else if key == "btn_join"@ {
        Some("加入"@)
    } else if key == "bot_panel_desc"@ {
        Some("呼叫三维莫比乌斯拓扑求解器进行推理走棋或排雷："@)
    } else if key == "bot_hint_btn"@ {
        Some("提示 (仅高亮)"@)
    } else if key == "bot_step_btn"@ {
        Some("走棋 (自动执行)"@)
    } else if key == "auth_login_title"@ {
        Some("玩家账号登录"@)
    } else if key == "auth_register_title"@ {
        Some("新玩家账号注册"@)
    } else if key == "auth_username"@ {
        Some("用户名"@)
    } else if key == "auth_password"@ {
        Some("密码"@)
    } else if key == "auth_submit_login"@ {
        Some("立即登录"@)
    } else if key == "auth_submit_register"@ {
        Some("完成注册"@)
    } else if key == "auth_switch_to_reg"@ {
        Some("还没有账号？立即注册"@)
    } else if key == "auth_switch_to_login"@ {
        Some("已有账号？直接登录"@)
    } else if key == "game_over_title_lost"@ {
        Some("💥 全员触雷出局！本局结束"@)
    } else if key == "game_over_title_won"@ {
        Some("🏆 雷区已全部排净！胜利结算"@)
    } else if key == "game_over_subtitle_lost"@ {
        Some("所有排雷队员均在莫比乌斯环空间内触雷出局。"@)
    } else if key == "game_over_subtitle_won"@ {
        Some("已成功完成该莫比乌斯三维空间的全部非雷区翻开！"@)
    } else if key == "game_over_leaderboard"@ {
        Some("本局积分排行榜"@)
    } else if key == "game_over_rank"@ {
        Some("排名"@)
    } else if key == "game_over_player"@ {
        Some("玩家"@)
    } else if key == "game_over_score"@ {
        Some("得分"@)
    } else if key == "game_over_status_survived"@ {
        Some("存活"@)
    } else if key == "game_over_status_eliminated"@ {
        Some("触雷出局"@)
    } else if key == "game_over_play_again"@ {
        Some("再来一局"@)
    } else if key == "game_over_leave_room"@ {
        Some("离开房间"@)
    } else if key == "game_over_close"@ {
        Some("查看棋盘"@)
    } else if key == "game_over_revealed"@ {
        Some("已揭开格子"@)
    } else if key == "game_over_time"@ {
        Some("对局用时"@)
    } else {
        None
    }
}

/// The English text of `key`, or `key` itself.
fn t_english<'a>(key: &'a str) -> (r: &'a str)
    ensures
        r@ == match english(key@) {
            Some(v) => v,
            None => key@,
        },
{
    if str_eq(key, "app_title") {
        return "3D Möbius Minesweeper";
    }
    if str_eq(key, "app_subtitle") {
        return "Topological Non-Euclidean Multiplayer Minesweeper";
    }
    if str_eq(key, "nav_single") {
        return "Single-Player";
    }
    if str_eq(key, "nav_multi") {
        return "Multiplayer Battle";
    }
    if str_eq(key, "nav_stats") {
        return "Leaderboard & Stats";
    }
    if str_eq(key, "nav_login") {
        return "Sign In";
    }
    if str_eq(key, "nav_register") {
        return "Register";
    }
    if str_eq(key, "nav_logout") {
        return "Sign Out";
    }
    if str_eq(key, "nav_guest") {
        return "Guest Player";
    }
    if str_eq(key, "diff_easy") {
        return "Easy";
    }
    if str_eq(key, "diff_medium") {
        return "Medium";
    }
    if str_eq(key, "diff_expert") {
        return "Expert";
    }
    if str_eq(key, "diff_custom") {
        return "Custom";
    }
    if str_eq(key, "hud_time") {
        return "Time";
    }
    if str_eq(key, "hud_mines") {
        return "Mines";
    }
    if str_eq(key, "hud_layer") {
        return "Depth Layer (Z)";
    }
    if str_eq(key, "hud_pb") {
        return "Personal Best";
    }
    if str_eq(key, "hud_no_pb") {
        return "No Record";
    }
    if str_eq(key, "hud_restart") {
        return "Restart Game";
    }
    if str_eq(key, "hud_room_code") {
        return "Room Code";
    }
    if str_eq(key, "hud_copy_code") {
        return "Copy Code";
    }
    if str_eq(key, "hud_copied") {
        return "Copied!";
    }
    if str_eq(key, "hud_score") {
        return "Score";
    }
    if str_eq(key, "tool_dig") {
        return "⛏️ Dig Mode";
    }
    if str_eq(key, "tool_flag") {
        return "🚩 Flag Mode";
    }
    if str_eq(key, "hud_pause") {
        return "Pause";
    }
    if str_eq(key, "hud_resume") {
        return "Resume";
    }
    if str_eq(key, "status_paused") {
        return "Game Paused // Click or Press [P] to Resume";
    }
    if str_eq(key, "mobile_prev_layer") {
        return "◄ Prev (Z-)";
    }
    if str_eq(key, "mobile_next_layer") {
        return "Next (Z+) ►";
    }
    if str_eq(key, "mp_leave_room") {
        return "Leave Room";
    }
    if str_eq(key, "mp_create_match") {
        return "Create Match";
    }
    if str_eq(key, "guide_mobius_left") {
        return "Möbius Seam Left (Inverts Y & Z)";
    }
    if str_eq(key, "guide_mobius_right") {
        return "Möbius Seam Right (Inverts Y & Z)";
    }
    if str_eq(key, "guide_controls") {
        return "Q/E or Scroll: Switch Layer | Left Click: Reveal | Right Click: Flag | Chord Click: Quick Reveal";
    }
    if str_eq(key, "global_banner_text") {
        return "3D Möbius Topology: Crossing X=0 / X=W-1 double-inverts Y & Z axes. 26-neighborhood 3D Flood Fill active.";
    }
    if str_eq(key, "guide_title") {
        return "Topology Guide";
    }
    if str_eq(key, "guide_item_1") {
        return "• Slice Projection: The viewport displays the 2D layer Z. Navigate depth with Q/E or mouse wheel.";
    }
    if str_eq(key, "guide_item_2") {
        return "• Möbius Seam: Crossing left/right inverts Y: (H-1)-Y and Z: (D-1)-Z.";
    }
    if str_eq(key, "guide_item_3") {
        return "• 26-Neighborhood: Numbers range from 0 to 26 based on all adjacent cells across 3D space.";
    }
    if str_eq(key, "guide_item_4") {
        return "• Safe Opening: First click guarantees a 27-cell clean opening.";
    }
    if str_eq(key, "status_ready") {
        return "Click any cell to start (Safe 27-cell opening guaranteed)";
    }
    if str_eq(key, "status_playing") {
        return "Game in progress...";
    }
    if str_eq(key, "status_won") {
        return "Victory! Board Cleared!";
    }
    if str_eq(key, "status_lost") {
        return "Game Over! You hit a mine.";
    }
    if str_eq(key, "status_spectating") {
        return "Spectating Mode (Eliminated)";
    }
    if str_eq(key, "lobby_title") {
        return "Multiplayer Lobby";
    }
    if str_eq(key, "lobby_create_room") {
        return "Create Room";
    }
    if str_eq(key, "lobby_join_room") {
        return "Join Room";
    }
    if str_eq(key, "lobby_room_name") {
        return "Room Name";
    }
    if str_eq(key, "lobby_enter_code") {
        return "Enter 6-char Room Code";
    }
    if str_eq(key, "lobby_nickname") {
        return "Player Nickname";
    }
    if str_eq(key, "lobby_ready") {
        return "Ready";
    }
    if str_eq(key, "lobby_unready") {
        return "Not Ready";
    }
    if str_eq(key, "lobby_start") {
        return "Start Match";
    }
    if str_eq(key, "lobby_waiting_host") {
        return "Waiting for host to start...";
    }
    if str_eq(key, "lobby_players") {
        return "Players in Room";
    }
    if str_eq(key, "lobby_public_rooms") {
        return "Active Public Rooms";
    }
    if str_eq(key, "lobby_no_rooms") {
        return "No active rooms found. Create one to begin!";
    }
    if str_eq(key, "bot_manager_title") {
        return "AI NPC Bots";
    }
    if str_eq(key, "bot_add_novice") {
        return "+ Novice";
    }
    if str_eq(key, "bot_add_inter") {
        return "+ Intermediate";
    }
    if str_eq(key, "bot_add_adv") {
        return "+ Advanced";
    }
    if str_eq(key, "bot_add_master") {
        return "+ Master";
    }
    if str_eq(key, "bot_speed_label") {
        return "AI Decision Delay";
    }
    if str_eq(key, "bot_speed_unit") {
        return "ms";
    }
    if str_eq(key, "bot_remove") {
        return "Kick";
    }
    if str_eq(key, "tab_chat") {
        return "Room Chat";
    }
    if str_eq(key, "tab_events") {
        return "Event Logs";
    }
    if str_eq(key, "chat_placeholder") {
        return "Type a message or emoji...";
    }
    if str_eq(key, "chat_send") {
        return "Send";
    }
    if str_eq(key, "custom_title") {
        return "Custom Board Configuration";
    }
    if str_eq(key, "custom_width") {
        return "Width (X)";
    }
    if str_eq(key, "custom_height") {
        return "Height (Y)";
    }
    if str_eq(key, "custom_depth") {
        return "Depth (Z)";
    }
    if str_eq(key, "custom_mines") {
        return "Mine Count";
    }
    if str_eq(key, "custom_max_mines") {
        return "Max Allowed Mines";
    }
    if str_eq(key, "custom_confirm") {
        return "Confirm & Apply";
    }
    if str_eq(key, "custom_cancel") {
        return "Cancel";
    }
    if str_eq(key, "custom_total_cells") {
        return "Total Cells: ";
    }
    if str_eq(key, "custom_safe_opening") {
        return "Safe Opening: ";
    }
    if str_eq(key, "custom_cells_unit") {
        return "27 cells";
    }
    if str_eq(key, "lobby_status_ready") {
        return "READY";
    }
    if str_eq(key, "lobby_status_waiting") {
        return "WAITING";
    }
    if str_eq(key, "bot_speed_hint") {
        return "Fast (0.2s) ──── Slow (20.0s)";
    }
    if str_eq(key, "btn_edit") {
        return "Edit";
    }
    if str_eq(key, "btn_join") {
        return "Join";
    }
    if str_eq(key, "bot_panel_desc") {
        return "Trigger mathematical 3D topological solver to reveal safe cells or place flags:";
    }
    if str_eq(key, "bot_hint_btn") {
        return "Hint (Highlight)";
    }
    if str_eq(key, "bot_step_btn") {
        return "Step (Execute)";
    }
    if str_eq(key, "auth_login_title") {
        return "Account Login";
    }
    if str_eq(key, "auth_register_title") {
        return "Create Account";
    }
    if str_eq(key, "auth_username") {
        return "Username";
    }
    if str_eq(key, "auth_password") {
        return "Password";
    }
    if str_eq(key, "auth_submit_login") {
        return "Log In";
    }
    if str_eq(key, "auth_submit_register") {
        return "Sign Up";
    }
    if str_eq(key, "auth_switch_to_reg") {
        return "Don't have an account? Sign up";
    }
    if str_eq(key, "auth_switch_to_login") {
        return "Already have an account? Log in";
    }
    if str_eq(key, "game_over_title_lost") {
        return "💥 ALL PLAYERS ELIMINATED";
    }
    if str_eq(key, "game_over_title_won") {
        return "🏆 SECTOR CLEARED! VICTORY";
    }
    if str_eq(key, "game_over_subtitle_lost") {
        return "All squad operatives hit mines in this 3D Möbius space.";
    }
    if str_eq(key, "game_over_subtitle_won") {
        return "All non-mine cells successfully neutralized!";
    }
    if str_eq(key, "game_over_leaderboard") {
        return "Match Final Leaderboard";
    }
    if str_eq(key, "game_over_rank") {
        return "Rank";
    }
    if str_eq(key, "game_over_player") {
        return "Player";
    }
    if str_eq(key, "game_over_score") {
        return "Score";
    }
    if str_eq(key, "game_over_status_survived") {
        return "Survived";
    }
    if str_eq(key, "game_over_status_eliminated") {
        return "Eliminated";
    }
    if str_eq(key, "game_over_play_again") {
        return "Play Again";
    }
    if str_eq(key, "game_over_leave_room") {
        return "Leave Room";
    }
    if str_eq(key, "game_over_close") {
        return "Inspect Board";
    }
    if str_eq(key, "game_over_revealed") {
        return "Revealed Cells";
    }
    if str_eq(key, "game_over_time") {
        return "Time Elapsed";
    }
    key
}

/// The Chinese text of `key`, or `key` itself.
fn t_chinese<'a>(key: &'a str) -> (r: &'a str)
    ensures
        r@ == match chinese(key@) {
            Some(v) => v,
            None => key@,
        },
{
    if str_eq(key, "app_title") {
        return "3D 莫比乌斯环拓扑扫雷";
    }
    if str_eq(key, "app_subtitle") {
        return "非欧几里得空间立体多人即时扫雷";
    }
    if str_eq(key, "nav_single") {
        return "单人模式";
    }
    if str_eq(key, "nav_multi") {
        return "多人即时竞速";
    }
    if str_eq(key, "nav_stats") {
        return "排行榜与战绩";
    }
    if str_eq(key, "nav_login") {
        return "登录账号";
    }
    if str_eq(key, "nav_register") {
        return "注册账号";
    }
    if str_eq(key, "nav_logout") {
        return "退出登录";
    }
    if str_eq(key, "nav_guest") {
        return "游客玩家";
    }
    if str_eq(key, "diff_easy") {
        return "初级";
    }
    if str_eq(key, "diff_medium") {
        return "中级";
    }
    if str_eq(key, "diff_expert") {
        return "高级";
    }
    if str_eq(key, "diff_custom") {
        return "自定义";
    }
    if str_eq(key, "hud_time") {
        return "用时";
    }
    if str_eq(key, "hud_mines") {
        return "剩余雷数";
    }
    if str_eq(key, "hud_layer") {
        return "当前深度切片 (Z)";
    }
    if str_eq(key, "hud_pb") {
        return "历史最佳 (PB)";
    }
    if str_eq(key, "hud_no_pb") {
        return "暂无记录";
    }
    if str_eq(key, "hud_restart") {
        return "重新开始";
    }
    if str_eq(key, "hud_room_code") {
        return "房间号";
    }
    if str_eq(key, "hud_copy_code") {
        return "复制房间号";
    }
    if str_eq(key, "hud_copied") {
        return "已复制!";
    }
    if str_eq(key, "hud_score") {
        return "得分";
    }
    if str_eq(key, "tool_dig") {
        return "⛏️ 翻开模式";
    }
    if str_eq(key, "tool_flag") {
        return "🚩 插旗模式";
    }
    if str_eq(key, "hud_pause") {
        return "暂停";
    }
    if str_eq(key, "hud_resume") {
        return "继续";
    }
    if str_eq(key, "status_paused") {
        return "游戏已暂停 // 点击或按 [P] 键恢复";
    }
    if str_eq(key, "mobile_prev_layer") {
        return "◄ 上一层 (Z-)";
    }
    if str_eq(key, "mobile_next_layer") {
        return "下一层 (Z+) ►";
    }
    if str_eq(key, "mp_leave_room") {
        return "离开房间";
    }
    if str_eq(key, "mp_create_match") {
        return "创建对局";
    }
    if str_eq(key, "guide_mobius_left") {
        return "莫比乌斯环左边界 (Y/Z 双重反转)";
    }
    if str_eq(key, "guide_mobius_right") {
        return "莫比乌斯环右边界 (Y/Z 双重反转)";
    }
    if str_eq(key, "guide_controls") {
        return "Q/E 或滚轮: 切层 | 左键: 翻格 | 右键: 插旗 | 双击/双键: 快速排雷";
    }
    if str_eq(key, "global_banner_text") {
        return "3D 莫比乌斯环拓扑：左右跨界执行 Y 与 Z 轴双重反转，立体 26 邻域无缝连锁扩散。";
    }
    if str_eq(key, "guide_title") {
        return "拓扑映射指南";
    }
    if str_eq(key, "guide_item_1") {
        return "• 纯 2D 切片：视图仅渲染深度 Z 平面，使用 Q/E 或滚轮自由切层。";
    }
    if str_eq(key, "guide_item_2") {
        return "• 莫比乌斯缝合：穿越左右边界时，Y' = (H-1)-Y 且 Z' = (D-1)-Z。";
    }
    if str_eq(key, "guide_item_3") {
        return "• 26 邻域雷数：数字范围 0~26，统计立体三维所有有效相邻地雷。";
    }
    if str_eq(key, "guide_item_4") {
        return "• 首击安全区：首击必出 27 格无雷立体连锁展开。";
    }
    if str_eq(key, "status_ready") {
        return "点击任意格子开局（保证首击 27 邻域绝对安全）";
    }
    if str_eq(key, "status_playing") {
        return "正在扫雷中...";
    }
    if str_eq(key, "status_won") {
        return "排雷成功！恭喜通关！";
    }
    if str_eq(key, "status_lost") {
        return "触雷爆炸！本局结束。";
    }
    if str_eq(key, "status_spectating") {
        return "观战模式（您已触雷出局）";
    }
    if str_eq(key, "lobby_title") {
        return "多人即时对战大厅";
    }
    if str_eq(key, "lobby_create_room") {
        return "创建对战房间";
    }
    if str_eq(key, "lobby_join_room") {
        return "加入对战房间";
    }
    if str_eq(key, "lobby_room_name") {
        return "房间名称";
    }
    if str_eq(key, "lobby_enter_code") {
        return "输入 6 位房间号码";
    }
    if str_eq(key, "lobby_nickname") {
        return "玩家昵称";
    }
    if str_eq(key, "lobby_ready") {
        return "准备就绪";
    }
    if str_eq(key, "lobby_unready") {
        return "取消准备";
    }
    if str_eq(key, "lobby_start") {
        return "开始对战";
    }
    if str_eq(key, "lobby_waiting_host") {
        return "等待房主开启对局...";
    }
    if str_eq(key, "lobby_players") {
        return "房间内玩家";
    }
    if str_eq(key, "lobby_public_rooms") {
        return "当前活跃房间";
    }
    if str_eq(key, "lobby_no_rooms") {
        return "暂无活跃房间，立即创建一个吧！";
    }
    if str_eq(key, "bot_manager_title") {
        return "AI NPC 机器人管理";
    }
    if str_eq(key, "bot_add_novice") {
        return "+ 初级";
    }
    if str_eq(key, "bot_add_inter") {
        return "+ 中级";
    }
    if str_eq(key, "bot_add_adv") {
        return "+ 高级";
    }
    if str_eq(key, "bot_add_master") {
        return "+ 大师";
    }
    if str_eq(key, "bot_speed_label") {
        return "AI 反应延迟";
    }
    if str_eq(key, "bot_speed_unit") {
        return "毫秒";
    }
    if str_eq(key, "bot_remove") {
        return "请出";
    }
    if str_eq(key, "tab_chat") {
        return "房间聊天";
    }
    if str_eq(key, "tab_events") {
        return "对局动态";
    }
    if str_eq(key, "chat_placeholder") {
        return "输入消息或表情...";
    }
    if str_eq(key, "chat_send") {
        return "发送";
    }
    if str_eq(key, "custom_title") {
        return "自定义棋盘参数";
    }
    if str_eq(key, "custom_width") {
        return "宽度 (X)";
    }
    if str_eq(key, "custom_height") {
        return "高度 (Y)";
    }
    if str_eq(key, "custom_depth") {
        return "深度 (Z)";
    }
    if str_eq(key, "custom_mines") {
        return "地雷总数";
    }
    if str_eq(key, "custom_max_mines") {
        return "最大允许雷数";
    }
    if str_eq(key, "custom_confirm") {
        return "确认并应用";
    }
    if str_eq(key, "custom_cancel") {
        return "取消";
    }
    if str_eq(key, "custom_total_cells") {
        return "总格数: ";
    }
    if str_eq(key, "custom_safe_opening") {
        return "首击安全区: ";
    }
    if str_eq(key, "custom_cells_unit") {
        return "27 格";
    }
    if str_eq(key, "lobby_status_ready") {
        return "已就绪";
    }
    if str_eq(key, "lobby_status_waiting") {
        return "等待中";
    }
    if str_eq(key, "bot_speed_hint") {
        return "极速 (0.2s) ──── 缓慢 (20.0s)";
    }
    if str_eq(key, "btn_edit") {
        return "修改";
    }
    if str_eq(key, "btn_join") {
        return "加入";
    }
    if str_eq(key, "bot_panel_desc") {
        return "呼叫三维莫比乌斯拓扑求解器进行推理走棋或排雷：";
    }
    if str_eq(key, "bot_hint_btn") {
        return "提示 (仅高亮)";
    }
    if str_eq(key, "bot_step_btn") {
        return "走棋 (自动执行)";
    }
    if str_eq(key, "auth_login_title") {
        return "玩家账号登录";
    }
    if str_eq(key, "auth_register_title") {
        return "新玩家账号注册";
    }
    if str_eq(key, "auth_username") {
        return "用户名";
    }
    if str_eq(key, "auth_password") {
        return "密码";
    }
    if str_eq(key, "auth_submit_login") {
        return "立即登录";
    }
    if str_eq(key, "auth_submit_register") {
        return "完成注册";
    }
    if str_eq(key, "auth_switch_to_reg") {
        return "还没有账号？立即注册";
    }
    if str_eq(key, "auth_switch_to_login") {
        return "已有账号？直接登录";
    }
    if str_eq(key, "game_over_title_lost") {
        return "💥 全员触雷出局！本局结束";
    }
    if str_eq(key, "game_over_title_won") {
        return "🏆 雷区已全部排净！胜利结算";
    }
    if str_eq(key, "game_over_subtitle_lost") {
        return "所有排雷队员均在莫比乌斯环空间内触雷出局。";
    }
    if str_eq(key, "game_over_subtitle_won") {
        return "已成功完成该莫比乌斯三维空间的全部非雷区翻开！";
    }
    if str_eq(key, "game_over_leaderboard") {
        return "本局积分排行榜";
    }
    if str_eq(key, "game_over_rank") {
        return "排名";
    }
    if str_eq(key, "game_over_player") {
        return "玩家";
    }
    if str_eq(key, "game_over_score") {
        return "得分";
    }
    if str_eq(key, "game_over_status_survived") {
        return "存活";
    }
    if str_eq(key, "game_over_status_eliminated") {
        return "触雷出局";
    }
    if str_eq(key, "game_over_play_again") {
        return "再来一局";
    }
    if str_eq(key, "game_over_leave_room") {
        return "离开房间";
    }
    if str_eq(key, "game_over_close") {
        return "查看棋盘";
    }
    if str_eq(key, "game_over_revealed") {
        return "已揭开格子";
    }
    if str_eq(key, "game_over_time") {
        return "对局用时";
    }
    key
}

/// `a`, then `b`, then `c`, as one string.
fn concat3(a: &str, b: &str, c: &str) -> (s: String)
    ensures
        s@ == a@ + b@ + c@,
{
    let mut s = String::new();
    s.append(a);
    s.append(b);
    s.append(c);
    s
}

pub open spec fn eliminated_text(lang: Language, username: Seq<char>) -> Seq<char> {
    match lang {
        Language::En => "Player ["@ + username + "] hit a mine and was eliminated!"@,
        Language::Zh => "玩家 ["@ + username + "] 触雷出局！"@,
    }
}

pub open spec fn joined_text(lang: Language, username: Seq<char>) -> Seq<char> {
    match lang {
        Language::En => "Player ["@ + username + "] joined the room."@,
        Language::Zh => "玩家 ["@ + username + "] 加入了房间。"@,
    }
}

pub open spec fn left_text(lang: Language, username: Seq<char>) -> Seq<char> {
    match lang {
        Language::En => "Player ["@ + username + "] left the room."@,
        Language::Zh => "玩家 ["@ + username + "] 离开了房间。"@,
    }
}

pub open spec fn started_text(lang: Language) -> Seq<char> {
    match lang {
        Language::En => "The battle has begun! Fast-click non-mine cells to earn points!"@,
        Language::Zh => "战斗开始！快速翻开非雷格争夺积分！"@,
    }
}

pub open spec fn game_over_text(lang: Language, winner: Seq<char>, score: nat) -> Seq<char> {
    match lang {
        Language::En => "Game Over! Champion: ["@ + winner + "] with "@ + decimal(score) + " points!"@,
        Language::Zh => "对局结束！恭喜获胜者: ["@ + winner + "]，获得 "@ + decimal(score) + " 分！"@,
    }
}

pub fn format_eliminated_msg(lang: Language, username: &str) -> (s: String)
    ensures
        s@ == eliminated_text(lang, username@),
{
    match lang {
        Language::En => concat3("Player [", username, "] hit a mine and was eliminated!"),
        Language::Zh => concat3("玩家 [", username, "] 触雷出局！"),
    }
}

pub fn format_player_joined_msg(lang: Language, username: &str) -> (s: String)
    ensures
        s@ == joined_text(lang, username@),
{
    match lang {
        Language::En => concat3("Player [", username, "] joined the room."),
        Language::Zh => concat3("玩家 [", username, "] 加入了房间。"),
    }
}

pub fn format_player_left_msg(lang: Language, username: &str) -> (s: String)
    ensures
        s@ == left_text(lang, username@),
{
    match lang {
        Language::En => concat3("Player [", username, "] left the room."),
        Language::Zh => concat3("玩家 [", username, "] 离开了房间。"),
    }
}

pub fn format_game_started_msg(lang: Language) -> (s: String)
    ensures
        s@ == started_text(lang),
{
    match lang {
        Language::En => owned("The battle has begun! Fast-click non-mine cells to earn points!"),
        Language::Zh => owned("战斗开始！快速翻开非雷格争夺积分！"),
    }
}

pub fn format_game_over_msg(lang: Language, winner_name: &str, score: u32) -> (s: String)
    ensures
        s@ == game_over_text(lang, winner_name@, score as nat),
{
    let digits = u64_decimal(score as u64);
    let mut s = String::new();
    match lang {
        Language::En => {
            s.append("Game Over! Champion: [");
            s.append(winner_name);
            s.append("] with ");
            s.append(digits.as_str());
            s.append(" points!");
        }
        Language::Zh => {
            s.append("对局结束！恭喜获胜者: [");
            s.append(winner_name);
            s.append("]，获得 ");
            s.append(digits.as_str());
            s.append(" 分！");
        }
    }
    s
}

/// `c` is an ASCII decimal digit.
pub open spec fn is_digit(c: char) -> bool {
    '0' <= c && c <= '9'
}

/// The number written by the digits `s`.
pub open spec fn digits_value(s: Seq<char>) -> nat
    decreases s.len(),
{
    if s.len() == 0 {
        0
    } else {
        digits_value(s.drop_last()) * 10 + ((s.last() as int) - ('0' as int)) as nat
    }
}

/// What `str::parse::<u32>` reads from `s`: an optional `+` and then one or
/// more decimal digits whose value fits a `u32`; nothing otherwise.
pub open spec fn parsed_u32(s: Seq<char>) -> Option<nat> {
    let body = unsigned_body(s);
    if body.len() > 0 && all_digits(body) && digits_value(body) <= u32::MAX {
        Some(digits_value(body))
    } else {
        None
    }
}

/// `s` without a leading `+`.
pub open spec fn unsigned_body(s: Seq<char>) -> Seq<char> {
    if s.len() > 0 && s[0] == '+' { s.drop_first() } else { s }
}

/// Every character of `s` is a decimal digit.
pub open spec fn all_digits(s: Seq<char>) -> bool {
    forall|i: int| 0 <= i < s.len() ==> is_digit(#[trigger] s[i])
}

proof fn lemma_digits_grow(s: Seq<char>, j: int, k: int)
    requires
        0 <= j <= k <= s.len(),
        all_digits(s),
    ensures
        digits_value(s.take(j)) <= digits_value(s.take(k)),
    decreases k - j,
{
    if j < k {
        lemma_digits_grow(s, j, k - 1);
        assert(s.take(k).drop_last() == s.take(k - 1));
        assert(is_digit(s[k - 1]));
    }
}

/// Reads an unsigned 32-bit number as `str::parse::<u32>` does.
pub fn parse_u32(s: &str) -> (r: Option<u32>)
    ensures
        r matches Some(v) ==> parsed_u32(s@) == Some(v as nat),
        r is None ==> parsed_u32(s@) is None,
{
    let n = s.unicode_len();
    let ghost sv = s@;
    let mut start: usize = 0;
    if n > 0 && s.get_char(0) == '+' {
        start = 1;
    }
    let ghost body = unsigned_body(sv);
    proof {
        assert(body == sv.subrange(start as int, n as int));
    }
    if start == n {
        return None;
    }
    let mut acc: u64 = 0;
    let mut i: usize = start;
    while i < n
        invariant
            start <= i <= n,
            n == sv.len(),
            sv == s@,
            body == sv.subrange(start as int, n as int),
            body == unsigned_body(sv),
            acc == digits_value(body.take(i - start)),
            acc <= u32::MAX,
            forall|q: int| 0 <= q < i - start ==> is_digit(#[trigger] body[q]),
        decreases n - i,
    {
        let c = s.get_char(i);
        proof {
            assert(body[i - start] == c);
            assert(body.take(i - start + 1).drop_last() == body.take(i - start));
        }
        if c < '0' || c > '9' {
            proof {
                assert(!is_digit(body[i - start]));
                assert(!all_digits(body));
            }
            return None;
        }
        let d = (c as u32 - '0' as u32) as u64;
        let next = acc * 10 + d;
        proof {
            assert(is_digit(body[i - start]));
            assert(digits_value(body.take(i - start + 1)) == next);
        }
        if next > u32::MAX as u64 {
            proof {
                assert forall|q: int| 0 <= q < i - start + 1 implies is_digit(#[trigger] body[q]) by {}
                if all_digits(body) {
                    lemma_digits_grow(body, i - start + 1, body.len() as int);
                    assert(body.take(body.len() as int) == body);
                }
            }
            return None;
        }
        acc = next;
        i = i + 1;
    }
    proof {
        assert(body.take(n - start) == body);
    }
    Some(acc as u32)
}

/// The text of a system event: the first parameter names the player (or the
/// winner, with the score in the second); an unknown event shows its first
/// parameter, or nothing.
pub open spec fn event_text(lang: Language, key: Seq<char>, params: Seq<String>) -> Seq<char> {
    let first = if params.len() > 0 { Some(params[0]@) } else { None::<Seq<char>> };
    if key == "player_joined"@ {
        joined_text(lang, match first { Some(u) => u, None => "Player"@ })
    } else if key == "player_left"@ {
        left_text(lang, match first { Some(u) => u, None => "Player"@ })
    } else if key == "player_eliminated"@ {
        eliminated_text(lang, match first { Some(u) => u, None => "Player"@ })
    } else if key == "game_started"@ {
        started_text(lang)
    } else if key == "game_over"@ {
        let score = if params.len() > 1 {
            match parsed_u32(params[1]@) {
                Some(v) => v,
                None => 0,
            }
        } else {
            0
        };
        game_over_text(lang, match first { Some(u) => u, None => "Winner"@ }, score)
    } else {
        match first {
            Some(u) => u,
            None => Seq::empty(),
        }
    }
}

/// The chat line of a system event in `lang`.
pub fn render_system_event(lang: Language, event_key: &str, params: &[String]) -> (s: String)
    ensures
        s@ == event_text(lang, event_key@, params@),
{
    let first: &str = if params.len() > 0 { params[0].as_str() } else { "" };
    let has_first = params.len() > 0;
    if str_eq(event_key, "player_joined") {
        return format_player_joined_msg(lang, if has_first { first } else { "Player" });
    }
    if str_eq(event_key, "player_left") {
        return format_player_left_msg(lang, if has_first { first } else { "Player" });
    }
    if str_eq(event_key, "player_eliminated") {
        return format_eliminated_msg(lang, if has_first { first } else { "Player" });
    }
    if str_eq(event_key, "game_started") {
        return format_game_started_msg(lang);
    }
    if str_eq(event_key, "game_over") {
        let score: u32 = if params.len() > 1 {
            match parse_u32(params[1].as_str()) {
                Some(v) => v,
                None => 0,
            }
        } else {
            0
        };
        return format_game_over_msg(lang, if has_first { first } else { "Winner" }, score);
    }
    if has_first {
        owned(first)
    } else {
        String::new()
    }
}

} // verus!
