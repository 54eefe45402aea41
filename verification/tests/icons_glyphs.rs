use bedterm_core::glyphs::{mask_to_bgra, rgba_to_bgra, subpixel_to_bgra, GlyphKey, SwashRasterizer, UIGlyphKey, CellMetrics};
use bedterm_core::icons::{agent_badge_tint, agent_id, slot_for_agent, CliAgent, DecodedIcon, IconSlot};

#[test]
fn slot_mapping_matches_swift_enum() {
    assert_eq!(slot_for_agent(0), None);
    assert_eq!(slot_for_agent(1), Some(IconSlot::Claude));
    assert_eq!(slot_for_agent(2), Some(IconSlot::Codex));
    assert_eq!(slot_for_agent(99), Some(IconSlot::Generic));
}

#[test]
fn agent_ids_and_tints() {
    assert_eq!(agent_id(Some(CliAgent::Claude)), 1);
    assert_eq!(agent_id(Some(CliAgent::Codex)), 2);
    assert_eq!(agent_id(Some(CliAgent::Amp)), 3);
    assert_eq!(agent_id(None), 3);
    assert_eq!(agent_badge_tint(Some(CliAgent::Claude)), 0xD97706FF);
    assert_eq!(agent_badge_tint(Some(CliAgent::Hermes)), 0xF97316FF);
    assert_eq!(agent_badge_tint(None), 0);
    // Every agent id maps to a badge.
    for a in [Some(CliAgent::Claude), Some(CliAgent::Codex), Some(CliAgent::Goose), None] {
        assert!(slot_for_agent(agent_id(a)).is_some());
    }
}

#[test]
fn glyph_keys() {
    let k = GlyphKey::regular(0x41);
    assert_eq!(k, GlyphKey { codepoint: 0x41, bold: false, italic: false });
    assert_ne!(k, GlyphKey { codepoint: 0x41, bold: true, italic: false });
    let u = UIGlyphKey { codepoint: 0x41, font_px_hundredths: 1250 };
    assert_eq!(u, u.clone());
    let m = CellMetrics { cell_width: 8, cell_height: 17, ascent: 13 };
    assert_eq!(m.cell_width + m.cell_height + m.ascent, 38);
    let _ = SwashRasterizer::new();
    let d = DecodedIcon { bgra: vec![1, 2, 3, 4], width: 1, height: 1 };
    assert_eq!(d.bgra.len() as u32, d.width * d.height * 4);
}

#[test]
fn mask_expands_to_four_equal_bytes() {
    assert_eq!(mask_to_bgra(&[0, 7, 255]), vec![0, 0, 0, 0, 7, 7, 7, 7, 255, 255, 255, 255]);
    assert!(mask_to_bgra(&[]).is_empty());
}

#[test]
fn subpixel_collapses_to_luma() {
    // (255*77 + 0 + 0) >> 8 = 76; (0 + 255*150 + 0) >> 8 = 149; white -> 255.
    let d = [255, 0, 0, 9, 0, 255, 0, 9, 255, 255, 255, 0, 1, 2];
    assert_eq!(subpixel_to_bgra(&d), vec![76, 76, 76, 76, 149, 149, 149, 149, 255, 255, 255, 255]);
}

#[test]
fn colour_bitmap_swaps_red_and_blue() {
    let d = [1, 2, 3, 4, 5, 6, 7, 8, 9];
    assert_eq!(rgba_to_bgra(&d), vec![3, 2, 1, 4, 7, 6, 5, 8]);
}
