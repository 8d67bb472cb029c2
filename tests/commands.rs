use statbot::bot::{
    counts_as_present, is_afk_channel, parse_command, split_words, totals_report, Command,
    Settings, SettingsRequest, StatsRequest, DEFAULT_PREFIX,
};
use statbot::time::MICROS_PER_SECOND;

fn stats_of(msg: &str) -> Option<StatsRequest> {
    match parse_command(msg, ">>", false) {
        Some(Command::Stats(r)) => Some(r),
        _ => None,
    }
}

#[test]
fn default_settings() {
    let s = Settings::default();
    assert_eq!(s.prefix, DEFAULT_PREFIX);
    assert_eq!(s.prefix, ">>");
    assert_eq!(s.output_dir, "./data");
}

#[test]
fn words_between_spaces() {
    assert_eq!(split_words("a  b"), vec!["a", "", "b"]);
    assert_eq!(split_words(""), vec![""]);
    assert_eq!(split_words("stats graph"), vec!["stats", "graph"]);
}

#[test]
fn stats_commands() {
    assert_eq!(stats_of(">>stats"), Some(StatsRequest::Totals));
    assert_eq!(stats_of(">>stats graph"), Some(StatsRequest::GraphTotal));
    assert_eq!(stats_of(">>stats graph total"), Some(StatsRequest::GraphTotal));
    assert_eq!(stats_of(">>stats graph time-per-day"), Some(StatsRequest::GraphPerDay));
    assert_eq!(stats_of(">>stats graph total x"), Some(StatsRequest::Unknown));
    assert_eq!(stats_of(">>stats foo"), Some(StatsRequest::Unknown));
}

#[test]
fn settings_commands() {
    match parse_command(">>settings prefix !", ">>", false) {
        Some(Command::Settings(SettingsRequest::SetPrefix(p))) => assert_eq!(p, "!"),
        other => panic!("unexpected {:?}", other),
    }
    assert!(matches!(
        parse_command(">>settings", ">>", false),
        Some(Command::Settings(SettingsRequest::Show))
    ));
    assert!(matches!(
        parse_command(">>settings prefix", ">>", false),
        Some(Command::Settings(SettingsRequest::WrongArgCount))
    ));
    assert!(matches!(
        parse_command(">>settings prefix a b", ">>", false),
        Some(Command::Settings(SettingsRequest::WrongArgCount))
    ));
    assert!(matches!(
        parse_command(">>settings colour red", ">>", false),
        Some(Command::Settings(SettingsRequest::InvalidSetting))
    ));
}

#[test]
fn other_messages() {
    assert!(matches!(parse_command(">>force-flush", ">>", false), Some(Command::ForceFlush)));
    assert!(matches!(parse_command(">>hello", ">>", false), Some(Command::Other)));
    assert!(matches!(parse_command(">>", ">>", false), Some(Command::Other)));
    assert!(parse_command("stats", ">>", false).is_none());
    assert!(parse_command(">>stats", ">>", true).is_none());
    assert!(matches!(parse_command("!stats", "!", false), Some(Command::Stats(StatsRequest::Totals))));
}

#[test]
fn presence_from_voice_state() {
    assert!(counts_as_present(Some("General"), false, false));
    assert!(!counts_as_present(Some("AFK corner"), false, false));
    assert!(!counts_as_present(Some("General"), true, false));
    assert!(!counts_as_present(Some("General"), false, true));
    assert!(!counts_as_present(None, false, false));
    assert!(is_afk_channel("AFK"));
    assert!(!is_afk_channel("afk"));
}

#[test]
fn totals_reply_shortest_first() {
    let totals = vec![(1, 93_784 * MICROS_PER_SECOND + 999_999), (2, 61 * MICROS_PER_SECOND)];
    let lines = totals_report(&totals);
    assert_eq!(
        lines,
        vec![
            (2, "*0* ***D***, *0* ***H***, *1* ***M***, *1* ***S***".to_string()),
            (1, "*1* ***D***, *2* ***H***, *3* ***M***, *4* ***S***".to_string()),
        ]
    );
}
