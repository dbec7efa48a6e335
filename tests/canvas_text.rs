use copycolors::canvas::{ColorsCanvas, Style};
use copycolors::color::Color;

fn rgb(r: u8, g: u8, b: u8) -> Color {
    Color { r, g, b }
}

#[test]
fn line_display_labels_on_their_colors() {
    let white = rgb(255, 255, 255);
    let navy = rgb(0, 0, 128);
    let cv = ColorsCanvas::new(vec![white, navy], false, false, false);
    let segs = cv.display(80);
    let texts: Vec<&str> = segs.iter().map(|s| s.text.as_str()).collect();
    assert_eq!(texts, vec!["#FFFFFF", ",", "#000080", "\n"]);
    assert_eq!(segs[0].style, Style::Colored { fg: rgb(0, 0, 0), bg: white, bold: true });
    assert_eq!(segs[1].style, Style::Plain);
    assert_eq!(segs[2].style, Style::Colored { fg: white, bg: navy, bold: true });
    assert_eq!(cv.colors_clipboarded(), None);
}

#[test]
fn rgb_labels_and_clipboard() {
    let cv = ColorsCanvas::new(vec![rgb(1, 2, 3), rgb(200, 100, 0)], false, true, true);
    assert_eq!(cv.colors_clipboarded(), Some("RGB(1,2,3),RGB(200,100,0)".to_string()));
    let segs = cv.print_tui();
    let texts: Vec<String> = segs.iter().map(|s| s.text.clone()).collect();
    assert_eq!(texts, vec!["RGB(1,2,3)", ",", "RGB(200,100,0)"]);
    let white = rgb(255, 255, 255);
    assert_eq!(segs[0].style, Style::Colored { fg: white, bg: rgb(1, 2, 3), bold: true });
    // Brightness 118.5: nearer black, so white text.
    assert_eq!(segs[2].style, Style::Colored { fg: white, bg: rgb(200, 100, 0), bold: true });
    let empty = ColorsCanvas::new(vec![], false, false, true);
    assert_eq!(empty.colors_clipboarded(), Some(String::new()));
}

#[test]
fn grid_display_layout() {
    let c1 = rgb(10, 20, 30);
    let c2 = rgb(40, 50, 60);
    // 80 columns hold 8 squares of 10 columns: one centred row of two.
    let cv = ColorsCanvas::new(vec![c1, c2], true, false, false);
    let segs = cv.display(80);
    // 6 lines of 4 or 6 segments, then a blank line.
    let lines: Vec<String> = segs
        .iter()
        .map(|s| s.text.clone())
        .collect::<String>()
        .split('\n')
        .map(|s| s.to_string())
        .collect();
    assert_eq!(lines.len(), 8);
    assert_eq!(lines[0], " ".repeat(50));
    assert_eq!(lines[1], format!("{}  #0A141E   #28323C ", " ".repeat(30)));
    assert_eq!(lines[2], " ".repeat(50));
    assert_eq!(lines[6], "");
    assert_eq!(lines[7], "");
    let colored: Vec<&Style> = segs
        .iter()
        .map(|s| &s.style)
        .filter(|s| matches!(s, Style::Colored { .. }))
        .collect();
    assert_eq!(colored.len(), 8);
    assert_eq!(*colored[0], Style::Colored { fg: c1, bg: c1, bold: false });
    assert_eq!(*colored[1], Style::Colored { fg: c2, bg: c2, bold: false });
}

#[test]
fn grid_wraps_rows() {
    let colors: Vec<Color> = (0..5u8).map(|k| rgb(k, k, k)).collect();
    // 20 columns hold two squares of 10 columns: rows of 2, 2 and a centred 1.
    let cv = ColorsCanvas::new(colors, true, false, false);
    let text: String = cv.display(20).iter().map(|s| s.text.clone()).collect();
    let lines: Vec<&str> = text.split('\n').collect();
    assert_eq!(lines.len(), 3 * 6 + 2);
    assert_eq!(lines[13], format!("{}  #040404 ", " ".repeat(5)));
    // A terminal narrower than one square still gets one per row.
    let narrow = ColorsCanvas::new(vec![rgb(1, 1, 1), rgb(2, 2, 2)], true, true, false);
    let text: String = narrow.display(5).iter().map(|s| s.text.clone()).collect();
    assert_eq!(text.split('\n').count(), 2 * 10 + 2);
}
