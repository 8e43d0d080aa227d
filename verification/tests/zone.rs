use leveled_logger::zone::{
    is_local_zone, is_space, resolve_offset, ZoneProbe, LOCAL_OFFSET_SECONDS,
};

fn contents(text: &str) -> ZoneProbe {
    ZoneProbe::Contents(text.to_string())
}

#[test]
fn the_fixed_offset_is_three_hours_behind() {
    assert_eq!(LOCAL_OFFSET_SECONDS, -3 * 3600);
}

#[test]
fn without_a_zone_file_the_fixed_offset_applies() {
    assert_eq!(resolve_offset(&ZoneProbe::NotConsulted), -10800);
}

#[test]
fn an_unreadable_zone_file_means_utc() {
    assert_eq!(resolve_offset(&ZoneProbe::Unreadable), 0);
}

#[test]
fn the_known_zone_gives_the_fixed_offset() {
    assert_eq!(resolve_offset(&contents("America/Sao_Paulo")), -10800);
}

#[test]
fn white_space_around_the_zone_name_is_ignored() {
    assert_eq!(resolve_offset(&contents("America/Sao_Paulo\n")), -10800);
    assert_eq!(resolve_offset(&contents("America/Sao_Paulo\r\n")), -10800);
    assert_eq!(resolve_offset(&contents("  \tAmerica/Sao_Paulo \n\n")), -10800);
    assert_eq!(resolve_offset(&contents("\u{3000}America/Sao_Paulo\u{a0}\u{2028}")), -10800);
}

#[test]
fn any_other_contents_mean_utc() {
    assert_eq!(resolve_offset(&contents("")), 0);
    assert_eq!(resolve_offset(&contents("   \n")), 0);
    assert_eq!(resolve_offset(&contents("Europe/Lisbon\n")), 0);
    assert_eq!(resolve_offset(&contents("America/Bahia\n")), 0);
    assert_eq!(resolve_offset(&contents("america/sao_paulo\n")), 0);
    assert_eq!(resolve_offset(&contents("America/Sao_Paul")), 0);
    assert_eq!(resolve_offset(&contents("America/Sao_Paulo2")), 0);
    assert_eq!(resolve_offset(&contents("America/ Sao_Paulo")), 0);
    assert_eq!(resolve_offset(&contents("America/Sao_Paulo\nUTC\n")), 0);
    assert_eq!(resolve_offset(&contents("# America/Sao_Paulo")), 0);
    assert_eq!(resolve_offset(&contents("America/São_Paulo")), 0);
    assert_eq!(resolve_offset(&contents("\u{200b}America/Sao_Paulo")), 0);
}

#[test]
fn the_zone_name_is_matched_as_the_standard_trim_would() {
    let texts = [
        "America/Sao_Paulo",
        " America/Sao_Paulo",
        "America/Sao_Paulo ",
        "\u{85}America/Sao_Paulo\u{1680}",
        "\u{2000}\u{200a}America/Sao_Paulo\u{202f}\u{205f}",
        "\u{180e}America/Sao_Paulo",
        "\u{feff}America/Sao_Paulo",
        "America/Sao_Paulo\u{0}",
        "x America/Sao_Paulo",
        "",
        " ",
    ];
    for text in texts.iter() {
        assert_eq!(is_local_zone(text), text.trim() == "America/Sao_Paulo");
    }
}

#[test]
fn white_space_is_what_the_standard_library_calls_white_space() {
    for code in 0u32..=0x10FFFF {
        if let Some(c) = char::from_u32(code) {
            assert_eq!(is_space(c), c.is_whitespace());
        }
    }
}
