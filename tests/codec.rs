use os64::datetime::{Date, Time};
use os64::short_name::{name_ext_to_u8_11, pack_short_name, str_to_u8_11, u8_11_to_string};

#[test]
fn date_packs_and_unpacks() {
    assert_eq!(Date(2023, 6, 1).to_u16(), 22209);
    let d = Date::from(22209u16);
    assert_eq!((d.0, d.1, d.2), (2023, 6, 1));
    assert_eq!(Date(1980, 1, 1).to_u16(), 0x21);
    assert_eq!(Date(2107, 12, 31).to_u16(), (127 << 9) | (12 << 5) | 31);
}

#[test]
fn date_round_trip_over_valid_range() {
    for year in 1980u16..=2107 {
        for month in 1u8..=12 {
            for day in [1u8, 15, 28, 31] {
                let d = Date::from(Date(year, month, day).to_u16());
                assert_eq!((d.0, d.1, d.2), (year, month, day));
            }
        }
    }
}

#[test]
fn time_packs_and_unpacks() {
    assert_eq!(Time(13, 45, 31).to_u16(), 28079);
    let t = Time::from(28079u16);
    assert_eq!((t.0, t.1, t.2), (13, 45, 30));
    assert_eq!(Time(0, 0, 0).to_u16(), 0);
}

#[test]
fn time_round_trip_rounds_seconds_down() {
    for hour in 0u8..24 {
        for minute in [0u8, 1, 30, 59] {
            for second in 0u8..60 {
                let t = Time::from(Time(hour, minute, second).to_u16());
                assert_eq!((t.0, t.1, t.2), (hour, minute, second - second % 2));
            }
        }
    }
}

#[test]
fn name_and_extension_are_uppercased_and_padded() {
    assert_eq!(&name_ext_to_u8_11("firstapp", "bin"), b"FIRSTAPPBIN");
    assert_eq!(&name_ext_to_u8_11("a", ""), b"A          ");
    assert_eq!(&name_ext_to_u8_11("longername", "text"), b"LONGERNATEX");
}

#[test]
fn text_name_is_split_at_dot() {
    assert_eq!(&str_to_u8_11("readme.txt"), b"README  TXT");
    assert_eq!(&str_to_u8_11("kernel"), b"KERNEL     ");
    assert_eq!(&str_to_u8_11("a."), b"A          ");
    assert_eq!(&str_to_u8_11("x.tar.gz"), b"X       TAR");
}

#[test]
fn short_name_reads_back() {
    assert_eq!(u8_11_to_string(b"FIRSTAPPBIN"), "FIRSTAPP.BIN");
    assert_eq!(u8_11_to_string(b"FIRSTAPP   "), "FIRSTAPP");
    assert_eq!(u8_11_to_string(b"A       B  "), "A.B");
    assert_eq!(u8_11_to_string(b"           "), "");
}

#[test]
fn short_name_round_trip() {
    for (name, ext, text) in [
        ("FIRSTAPP", "BIN", "FIRSTAPP.BIN"),
        ("A", "", "A"),
        ("KERNEL", "SYS", "KERNEL.SYS"),
        ("X1", "C", "X1.C"),
    ] {
        assert_eq!(u8_11_to_string(&name_ext_to_u8_11(name, ext)), text);
        assert_eq!(u8_11_to_string(&pack_short_name(name, ext)), text);
    }
}
