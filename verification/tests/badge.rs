use cargo_kimi::badge::generate_svg;

#[test]
fn generate_svg_includes_score() {
    let svg = generate_svg(85);
    assert!(svg.contains("85/100"));
    assert!(svg.contains("kimi"));
    assert!(svg.starts_with("<svg"));
}

#[test]
fn generate_svg_color_ranges() {
    let excellent = generate_svg(90);
    assert!(excellent.contains("#4CAF50")); // green

    let good = generate_svg(70);
    assert!(good.contains("#8BC34A")); // light green

    let warning = generate_svg(50);
    assert!(warning.contains("#FFC107")); // yellow

    let poor = generate_svg(30);
    assert!(poor.contains("#FF9800")); // orange

    let critical = generate_svg(10);
    assert!(critical.contains("#F44336")); // red
}

#[test]
fn badge_widths_follow_text_length() {
    // "kimi" is 4 characters: 4 * 7 + 12 = 40; "100/100" is 7: 7 * 7 + 12 = 61.
    let svg = generate_svg(100);
    assert!(svg.contains(r#"width="101" height="20" role="img""#));
    assert!(svg.contains(r##"<rect width="40" height="20" fill="#555"/>"##));
    assert!(svg.contains(r##"<rect x="40" width="61" height="20" fill="#4CAF50"/>"##));
    assert!(svg.contains(r#"<text x="20" y="13">kimi</text>"#));
    assert!(svg.contains(r#"<text x="70" y="13">100/100</text>"#));
}

#[test]
fn badge_band_edges() {
    assert!(generate_svg(80).contains("#4CAF50"));
    assert!(generate_svg(79).contains("#8BC34A"));
    assert!(generate_svg(60).contains("#8BC34A"));
    assert!(generate_svg(59).contains("#FFC107"));
    assert!(generate_svg(59).contains(r##"<g fill="#000000""##));
    assert!(generate_svg(40).contains("#FFC107"));
    assert!(generate_svg(39).contains("#FF9800"));
    assert!(generate_svg(20).contains("#FF9800"));
    assert!(generate_svg(19).contains("#F44336"));
    assert!(generate_svg(0).contains("#F44336"));
}

#[test]
fn badge_above_hundred_is_red() {
    let svg = generate_svg(150);
    assert!(svg.contains("150/100"));
    assert!(svg.contains("#F44336"));
}

#[test]
fn badge_shows_every_score() {
    for score in [0u32, 7, 42, 99, 100, 4294967295] {
        let svg = generate_svg(score);
        assert!(svg.contains(&format!("{}/100", score)));
        assert!(svg.ends_with("</svg>"));
    }
}
