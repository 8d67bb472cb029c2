use statbot::format::seconds_to_discord_formatted;

#[test]
fn formats_days_hours_minutes_seconds() {
    assert_eq!(
        seconds_to_discord_formatted(93_784),
        "*1* ***D***, *2* ***H***, *3* ***M***, *4* ***S***"
    );
}

#[test]
fn formats_zero() {
    assert_eq!(
        seconds_to_discord_formatted(0),
        "*0* ***D***, *0* ***H***, *0* ***M***, *0* ***S***"
    );
}

#[test]
fn formats_large_and_negative() {
    assert_eq!(
        seconds_to_discord_formatted(10 * 86_400 + 59),
        "*10* ***D***, *0* ***H***, *0* ***M***, *59* ***S***"
    );
    assert_eq!(
        seconds_to_discord_formatted(-90_000),
        "*-1* ***D***, *-1* ***H***, *0* ***M***, *0* ***S***"
    );
    assert_eq!(
        seconds_to_discord_formatted(i64::MIN),
        "*-106751991167300* ***D***, *-15* ***H***, *-30* ***M***, *-8* ***S***"
    );
}
