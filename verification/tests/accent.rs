use battery_sipjuice::system_accent::{accent_from_name, detect, detect_gnome, gnome_accent_name, rgb_hex};

#[test]
fn maps_known_gnome_accent_names() {
    assert_eq!(accent_from_name("orange").unwrap().color, "#ff6900");
    assert_eq!(accent_from_name("brown").unwrap().strong, "#986a44");
    assert!(accent_from_name("unknown").is_none());
}

#[test]
fn formats_gtk_rgb_channels_as_css_hex() {
    // 0.454902, 0.376471 and 0.831373 of full scale are 116, 96 and 212;
    // -1.0, 0.5 and 2.0 clamp and round to 0, 128 and 255.
    assert_eq!(rgb_hex(116, 96, 212), "#7460d4");
    assert_eq!(rgb_hex(0, 128, 255), "#0080ff");
}

#[test]
fn gsettings_output_is_unquoted() {
    assert_eq!(gnome_accent_name("'blue'\n"), "blue");
    assert_eq!(detect_gnome(Some("'orange'\n")).unwrap().color, "#ff6900");
    assert!(detect_gnome(Some("'nope'")).is_none());
    assert!(detect_gnome(None).is_none());
}

#[test]
fn gtk_colour_wins_over_gsettings() {
    let from_gnome = detect(None, Some("'orange'")).unwrap();
    assert_eq!(from_gnome.color, "#ff6900");
    let gtk = accent_from_name("blue").unwrap();
    let gtk_color = gtk.color.clone();
    let chosen = detect(Some(gtk), Some("'orange'")).unwrap();
    assert_eq!(chosen.color, gtk_color);
    assert!(detect(None, None).is_none());
}
