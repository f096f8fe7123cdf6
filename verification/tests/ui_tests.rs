use sashiki::config::{config_file_path, TerminalConfig, Theme};
use sashiki::font::{
    cjk_candidates, find_japanese_font, find_monospace_font, first_loaded, is_cjk_family, list_all_fonts,
    load_font_by_name,
};
use sashiki::frame::{CellAttrs, CellWidth, FrameCell, FrameRow, Rgb, Underline};
use sashiki::ui::{terminal_widget, FileListMode, FileSource, GridSize, TerminalWidget, ViewState};

fn cell(ch: char, width: CellWidth) -> FrameCell {
    FrameCell { ch, width, ..FrameCell::default() }
}

#[test]
fn row_text_skips_spacers_and_uses_clusters() {
    let row = FrameRow {
        cells: vec![cell('あ', CellWidth::Wide), cell(' ', CellWidth::Spacer), cell('e', CellWidth::Narrow)],
        clusters: vec![(2, "é".into())],
        selection: None,
    };
    assert_eq!(row.text(), "あé");
    assert_eq!(row.cluster(2), Some("é"));
    assert_eq!(row.cluster(0), None);
}

#[test]
fn rgb_from_u32() {
    assert_eq!(Rgb::from_u32(0x74a9e4), Rgb { r: 0x74, g: 0xa9, b: 0xe4 });
    assert_eq!(Rgb::from_u32(0xff000001), Rgb { r: 0, g: 0, b: 1 });
    assert_eq!(CellAttrs::default().underline, Underline::Off);
}

#[test]
fn test_find_monospace_font() {
    let result = find_monospace_font();
    if let Some((name, data)) = result {
        assert!(!name.is_empty());
        assert!(!data.is_empty());
    }
}

#[test]
fn test_find_japanese_font() {
    let result = find_japanese_font();
    if let Some((name, data)) = result {
        assert!(!name.is_empty());
        assert!(!data.is_empty());
    }
}

#[test]
fn test_list_fonts() {
    let fonts = list_all_fonts();
    println!("Found {} font families", fonts.len());
}

#[test]
fn cjk_family_names() {
    assert!(is_cjk_family("Noto Sans CJK JP"));
    assert!(is_cjk_family("MS GOTHIC"));
    assert!(!is_cjk_family("DejaVu Sans Mono"));
}

#[test]
fn file_source_and_mode_toggle() {
    let mut s = FileSource::default();
    assert_eq!(s.label(), "Git");
    s.toggle();
    assert_eq!(s, FileSource::All);
    assert_eq!(s.label(), "Files");
    let mut m = FileListMode::default();
    assert_eq!(m.icon(), "≡");
    m.toggle();
    assert_eq!(m.icon(), "⊞");
    m.toggle();
    assert_eq!(m, FileListMode::Flat);
    assert!(matches!(ViewState::default(), ViewState::Welcome));
}

#[test]
fn grid_size_skips_repeats() {
    let mut g = GridSize::new();
    assert!(g.update(80, 24));
    assert!(!g.update(80, 24));
    assert!(g.update(100, 24));
}

#[test]
fn terminal_widget_state() {
    let palette = ();
    let w: TerminalWidget<'_, ()> = terminal_widget("$ ".to_string(), true, &palette, (1, 2), "日本a");
    assert_eq!(w.cursor_cell(), Some((1, 2)));
    assert_eq!(w.preedit_widths(), vec![2, 2, 1]);
    let w = TerminalWidget::new(String::new(), false, &palette, (0, 0), "");
    assert_eq!(w.cursor_cell(), None);
    assert!(w.preedit_widths().is_empty());
}

#[test]
fn config_defaults() {
    assert_eq!(Theme::default(), Theme::Dark);
    assert!(TerminalConfig::default().shell_path.is_none());
    assert_eq!(config_file_path("/home/u/.config/sashiki"), "/home/u/.config/sashiki/config.toml");
}

#[test]
fn font_first_loaded_picks_earliest() {
    assert_eq!(first_loaded(&[false, true, true]), Some(1));
    assert_eq!(first_loaded(&[true, false]), Some(0));
    assert_eq!(first_loaded(&[false, false]), None);
    assert_eq!(first_loaded(&[]), None);
}

#[test]
fn font_cjk_candidates_keep_order() {
    let all = vec![
        "Arial".to_string(),
        "Noto Sans CJK JP".to_string(),
        "DejaVu Sans".to_string(),
        "MS Mincho".to_string(),
        "Yu GOTHIC".to_string(),
    ];
    assert_eq!(
        cjk_candidates(&all),
        vec!["Noto Sans CJK JP".to_string(), "MS Mincho".to_string(), "Yu GOTHIC".to_string()]
    );
}

#[test]
fn font_name_with_nul_loads_nothing() {
    assert!(load_font_by_name("Mono\0space").is_none());
}
