use pterminal::color::{
    alacritty_color_to_rgb, dim_color, index_256_to_rgb, CellColor, RgbColor, Theme, ThemeColors,
};

#[test]
fn palette_indices_give_the_documented_colours() {
    assert_eq!(index_256_to_rgb(0), RgbColor::new(0, 0, 0));
    assert_eq!(index_256_to_rgb(15), RgbColor::new(0, 0, 0));
    assert_eq!(index_256_to_rgb(16), RgbColor::new(0, 0, 0));
    assert_eq!(index_256_to_rgb(17), RgbColor::new(0, 0, 95));
    assert_eq!(index_256_to_rgb(21), RgbColor::new(0, 0, 255));
    assert_eq!(index_256_to_rgb(52), RgbColor::new(95, 0, 0));
    assert_eq!(index_256_to_rgb(110), RgbColor::new(135, 175, 215));
    assert_eq!(index_256_to_rgb(231), RgbColor::new(255, 255, 255));
    assert_eq!(index_256_to_rgb(232), RgbColor::new(8, 8, 8));
    assert_eq!(index_256_to_rgb(244), RgbColor::new(128, 128, 128));
    assert_eq!(index_256_to_rgb(255), RgbColor::new(238, 238, 238));
}

#[test]
fn theme_resolves_indexed_and_named_colours() {
    let theme = Theme::default();
    assert_eq!(theme.name, "iterm2-default");
    let ansi = theme.colors.ansi;
    assert_eq!(alacritty_color_to_rgb(&CellColor::Indexed(0), &theme), ansi[0]);
    assert_eq!(alacritty_color_to_rgb(&CellColor::Indexed(15), &theme), RgbColor::new(0xf1, 0xf1, 0xf0));
    assert_eq!(alacritty_color_to_rgb(&CellColor::Indexed(16), &theme), RgbColor::new(0, 0, 0));
    assert_eq!(alacritty_color_to_rgb(&CellColor::Indexed(231), &theme), RgbColor::new(255, 255, 255));
    assert_eq!(alacritty_color_to_rgb(&CellColor::Indexed(232), &theme), RgbColor::new(8, 8, 8));
    assert_eq!(alacritty_color_to_rgb(&CellColor::Indexed(255), &theme), RgbColor::new(238, 238, 238));
    assert_eq!(alacritty_color_to_rgb(&CellColor::Spec(1, 2, 3), &theme), RgbColor::new(1, 2, 3));
    assert_eq!(alacritty_color_to_rgb(&CellColor::Named(1), &theme), RgbColor::new(0xff, 0x5b, 0x56));
    assert_eq!(alacritty_color_to_rgb(&CellColor::Named(8), &theme), RgbColor::new(0x68, 0x67, 0x67));
    assert_eq!(alacritty_color_to_rgb(&CellColor::Named(256), &theme), theme.colors.foreground);
    assert_eq!(alacritty_color_to_rgb(&CellColor::Named(257), &theme), theme.colors.background);
    assert_eq!(alacritty_color_to_rgb(&CellColor::Named(258), &theme), theme.colors.cursor);
    assert_eq!(alacritty_color_to_rgb(&CellColor::Named(260), &theme), RgbColor::new(170, 60, 57));
    assert_eq!(alacritty_color_to_rgb(&CellColor::Named(266), &theme), dim_color(ansi[7]));
    assert_eq!(alacritty_color_to_rgb(&CellColor::Named(267), &theme), theme.colors.foreground);
    assert_eq!(alacritty_color_to_rgb(&CellColor::Named(268), &theme), theme.colors.foreground);
    assert_eq!(alacritty_color_to_rgb(&CellColor::Named(99), &theme), theme.colors.foreground);
}

#[test]
fn dim_is_two_thirds_rounded_down() {
    assert_eq!(dim_color(RgbColor::new(255, 100, 1)), RgbColor::new(170, 66, 0));
    assert_eq!(dim_color(RgbColor::new(0, 3, 2)), RgbColor::new(0, 2, 1));
}

#[test]
fn hex_notation_reads_and_writes() {
    assert_eq!(RgbColor::from_hex("#ff5b56"), Some(RgbColor::new(0xff, 0x5b, 0x56)));
    assert_eq!(RgbColor::from_hex("272935"), Some(RgbColor::new(0x27, 0x29, 0x35)));
    assert_eq!(RgbColor::from_hex("##ABCDEF"), Some(RgbColor::new(0xab, 0xcd, 0xef)));
    assert_eq!(RgbColor::from_hex("#+a+b+c"), None);
    assert_eq!(RgbColor::from_hex("#0a0b0c"), Some(RgbColor::new(10, 11, 12)));
    assert_eq!(RgbColor::from_hex("#fff"), None);
    assert_eq!(RgbColor::from_hex(""), None);
    assert_eq!(RgbColor::from_hex("#"), None);
    assert_eq!(RgbColor::from_hex("#12345g"), None);
    assert_eq!(RgbColor::from_hex("#1234567"), None);
    assert_eq!(RgbColor::from_hex("12#456"), None);
    assert_eq!(RgbColor::from_hex("#a+1234"), None);
    assert_eq!(RgbColor::from_hex("#-12345"), None);
    assert_eq!(RgbColor::from_hex("\u{e9}1234"), None);
    assert_eq!(RgbColor::new(0, 10, 255).to_hex(), "#000aff");
}

#[test]
fn hex_round_trip_over_the_default_palette() {
    let colors = ThemeColors::default();
    let mut all = colors.ansi.to_vec();
    all.extend([colors.background, colors.foreground, colors.cursor, colors.selection_bg, colors.selection_fg]);
    for c in all {
        assert_eq!(RgbColor::from_hex(&c.to_hex()), Some(c));
    }
    assert_eq!(colors.background.to_hex(), "#272935");
    for v in 0..=255u8 {
        let c = RgbColor::new(v, 255 - v, v ^ 0x5a);
        assert_eq!(RgbColor::from_hex(&c.to_hex()), Some(c));
    }
}
