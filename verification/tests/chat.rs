use recomp_net_server::chat_filter::{apply, enabled, init, ChatFilter};
use recomp_net_server::identity::{
    default_handle_for, link_discord, set_handle, DiscordProfile, RowWrite, StoredRow,
};
use recomp_net_server::names::{acceptable, sanitize, NAME_MAX_BYTES, NAME_MAX_CHARS};

const LIST: &str = "# words\nfuck\nshit\nasshole\nass\ncunt\ncum\nputa\nputain\nmerde\n\
filho da puta\n~nigger\nблять\nсука\nblyat\n~死ね\n~傻逼\n~씨발\nscheiße\n";

fn f() -> ChatFilter {
    ChatFilter::parse(LIST, true)
}

fn expect(input: &str, want: &str) {
    assert_eq!(f().mask(input), want, "input: {input}");
}

#[test]
fn plain_case_repeats_leet_spacing() {
    expect("fuck", "****");
    expect("FUCK you", "**** you");
    expect("fuuuuck", "*******");
    expect("sh1t happens", "**** happens");
    expect("$hit", "****");
    expect("f.u.c.k", "*******");
    expect("f u c k off", "******* off");
    expect("ｆｕｃｋ", "****");
    expect("what the fuck?!", "what the ****?!");
    expect("asshole!", "*******!");
}

#[test]
fn whole_word_boundaries() {
    expect("class assassin", "class assassin");
    expect("Scunthorpe", "Scunthorpe");
    expect("shitake mushrooms", "shitake mushrooms");
    expect("cumulative", "cumulative");
    expect("bass fishing", "bass fishing");
    expect("compute puta", "compute ****");
    expect("hello", "hello");
    expect("a s s", "a s s");
}

#[test]
fn substring_and_scripts() {
    expect("n1gger", "******");
    expect("Sniggers", "S******s");
    expect("блять", "*****");
    expect("СУКА блин", "**** блин");
    expect("blyat", "*****");
    expect("死ね", "**");
    expect("お前死ね!", "お前**!");
    expect("傻逼", "**");
    expect("씨발 진짜", "** 진짜");
    expect("scheiße", "*******");
    expect("putain de merde", "****** de *****");
    expect("filho da puta", "*************");
    expect("ヽ(´ー｀)ノ", "ヽ(´ー｀)ノ");
    expect("gg 😀 fuck 😀", "gg 😀 **** 😀");
}

#[test]
fn disabled_passes_through() {
    let off = ChatFilter::parse(LIST, false);
    assert_eq!(off.mask("fuck"), "fuck");
}

#[test]
fn a_whole_word_needs_a_boundary_in_the_original() {
    /* The boundary is judged on the character as it was sent. */
    expect("Xfuck", "Xfuck");
    expect("fuckX", "fuckX");
    expect("1fuck", "1****");
}

#[test]
fn extra_entries_are_appended() {
    let both = init(LIST, true, Some("darn"));
    assert_eq!(apply(&both, "darn fuck"), "**** ****");
    assert!(enabled(&both));
    let off = init(LIST, false, None);
    assert!(!enabled(&off));
    assert_eq!(apply(&off, "fuck"), "fuck");
}

#[test]
fn hygiene_drops_control_characters_and_trims() {
    assert_eq!(sanitize(Some("Ma\nri\tsa ".to_string())).as_deref(), Some("Marisa"));
    assert_eq!(sanitize(Some("   ".to_string())), None);
    assert_eq!(sanitize(None), None);
}

#[test]
fn names_a_name_is_capped_in_characters_and_in_bytes() {
    let long = "a".repeat(200);
    let got = sanitize(Some(long)).unwrap();
    assert_eq!(got.chars().count(), NAME_MAX_CHARS);
    let wide = "\u{1F600}".repeat(32);
    let got = sanitize(Some(wide)).unwrap();
    assert!(got.len() <= NAME_MAX_BYTES, "{} bytes", got.len());
    assert!(got.chars().all(|c| c == '\u{1F600}'));
}

#[test]
fn acceptable_refuses_rather_than_masking() {
    assert_eq!(acceptable(&f(), Some("Scunthorpe".into())).as_deref(), Some("Scunthorpe"));
    assert_eq!(acceptable(&f(), Some("fuck".into())), None);
    assert!(acceptable(&f(), Some("fuck".into())).is_none());
}

fn profile(username: &str, global: Option<&str>) -> DiscordProfile {
    DiscordProfile {
        id: "123456789012345678".into(),
        username: username.into(),
        global_name: global.map(str::to_string),
        avatar: None,
    }
}

#[test]
fn the_display_name_is_preferred_then_the_handle() {
    assert_eq!(default_handle_for(&f(), &profile("reimu_h", Some("Reimu"))), "Reimu");
    assert_eq!(default_handle_for(&f(), &profile("reimu_h", None)), "reimu_h");
}

#[test]
fn a_refused_discord_name_falls_back_instead_of_blocking_the_login() {
    let h = default_handle_for(&f(), &profile("reimu_h", Some("fuck")));
    assert_eq!(h, "reimu_h");
    let h = default_handle_for(&f(), &profile("fuck", Some("fuck")));
    assert_eq!(h, "Player-5678");
    assert!(!h.contains('*'), "never masked, only replaced");
}

#[test]
fn a_discord_name_is_cut_to_our_field_on_a_character_boundary() {
    let wide = "\u{1F600}".repeat(32);
    let h = default_handle_for(&f(), &profile("x", Some(&wide)));
    assert!(h.len() <= NAME_MAX_BYTES, "{} bytes", h.len());
    assert!(h.chars().all(|c| c == '\u{1F600}'));
}

#[test]
fn a_handle_the_player_typed_is_refused_not_replaced() {
    assert!(acceptable(&f(), Some("fuck".into())).is_none());
    assert_eq!(acceptable(&f(), Some("Marisa".into())).as_deref(), Some("Marisa"));
}

fn row(id: &str, handle: Option<&str>) -> StoredRow {
    StoredRow { id: id.into(), handle: handle.map(str::to_string) }
}

const ID: &str = "67e55044-10b1-426f-9247-bb680e5fe0c8";

#[test]
fn linking_twice_is_the_same_player() {
    let a = link_discord(&f(), &profile("reimu_h", Some("Reimu")), None).unwrap();
    let stored = row(&a.player.id, Some(&a.player.handle));
    let b = link_discord(&f(), &profile("reimu_h", Some("Reimu")), Some(stored)).unwrap();
    assert_eq!(a.player.id, b.player.id, "the snowflake is the key");
    match a.write {
        RowWrite::Insert(hash) => assert_eq!(hash.len(), 64),
        _ => panic!("a first login inserts its row"),
    }
    assert!(matches!(b.write, RowWrite::Refresh));
}

#[test]
fn a_discord_rename_keeps_the_identity_and_the_chosen_handle() {
    let chosen = set_handle(&f(), "Red White".into()).unwrap();
    assert_eq!(chosen, "Red White");
    let after = link_discord(
        &f(),
        &profile("marisa_k", Some("Marisa")),
        Some(row(ID, Some(&chosen))),
    )
    .unwrap();
    assert_eq!(after.player.id, ID, "identity survives a rename");
    assert_eq!(after.player.handle, "Red White");
    assert_eq!(after.player.discord_username, "marisa_k");
}

#[test]
fn two_discord_accounts_are_two_players() {
    let a = link_discord(&f(), &profile("reimu_h", Some("Reimu")), None).unwrap();
    let b = link_discord(&f(), &profile("marisa_k", Some("Marisa")), None).unwrap();
    assert_ne!(a.player.id, b.player.id);
}

#[test]
fn a_refused_handle_leaves_the_old_one_standing() {
    assert!(set_handle(&f(), "fuck".into()).is_none());
    let again = link_discord(
        &f(),
        &profile("reimu_h", Some("Reimu")),
        Some(row(ID, Some("Reimu"))),
    )
    .unwrap();
    assert_eq!(again.player.handle, "Reimu");
}

#[test]
fn a_blank_handle_is_given_the_default_and_a_bad_row_is_refused() {
    let l = link_discord(&f(), &profile("reimu_h", None), Some(row(ID, Some("")))).unwrap();
    assert_eq!(l.player.handle, "reimu_h");
    assert!(matches!(l.write, RowWrite::RefreshHandle));
    assert!(link_discord(&f(), &profile("x", None), Some(row("not-an-id", None))).is_none());
}
