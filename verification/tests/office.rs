use potato_core::office::{
    bounded, check_chart, check_office_output, check_office_request, check_slide, hint_message, OfficeKind, layout_hints, text, validate_formula, ChartView, LayoutHint, SeriesView, SlideView,
};

fn problem(formula: &str, rows: usize, columns: usize) -> Option<String> {
    validate_formula(formula, rows, columns).err().map(|e| {
        assert_eq!(e.status, 400);
        e.message
    })
}

#[test]
fn supported_formulas_pass() {
    assert_eq!(problem("=SUM(B2:B3)", 3, 2), None);
    assert_eq!(problem("=B4/2", 4, 2), None);
    assert_eq!(problem("=ROUND(AVERAGE(B2:B3)/7,2)", 3, 2), None);
    assert_eq!(problem("=$A$1+10%", 1, 1), None);
    assert_eq!(problem("=1/0", 1, 1), None);
}

#[test]
fn unsupported_formulas_are_rejected_with_their_reason() {
    let f = |m: &str| Some(format!("Office generation failed: {m}"));
    assert_eq!(problem("SUM(A1)", 1, 1), f("Formula must begin with = and contain at most 512 bytes"));
    assert_eq!(problem(&format!("={}", "1".repeat(512)), 1, 1), f("Formula must begin with = and contain at most 512 bytes"));
    assert_eq!(problem("=SUM(A:A)", 10, 10), f("Supported functions: SUM, AVERAGE, MIN, MAX, COUNT, ABS, ROUND"));
    assert_eq!(problem("=SUM(A1:A999999)", 10, 10), f("Formula references must stay inside the supplied sheet rectangle"));
    assert_eq!(problem("=WEBSERVICE(1)", 10, 10), f("Supported functions: SUM, AVERAGE, MIN, MAX, COUNT, ABS, ROUND"));
    assert_eq!(problem("=UNSUPPORTED(1)", 1, 1), f("Supported functions: SUM, AVERAGE, MIN, MAX, COUNT, ABS, ROUND"));
    assert_eq!(problem("=SUM(", 10, 10), f("Unbalanced formula"));
    assert_eq!(problem("=1)", 10, 10), f("Unbalanced formula"));
    assert_eq!(problem("=sum(1)", 10, 10), f("Use uppercase same-sheet numeric formulas; unsupported formula syntax"));
    assert_eq!(problem("=Sheet2!A1", 10, 10), f("Formula references must stay inside the supplied sheet rectangle"));
    assert_eq!(problem("=Ab", 10, 10), f("Invalid cell reference"));
    assert_eq!(problem("=A1b", 10, 10), f("invalid digit found in string"));
    assert_eq!(problem("=A99999999999999999999999", 10, 10), f("number too large to fit in target type"));
    assert_eq!(problem("=A0", 10, 10), f("Formula references must stay inside the supplied sheet rectangle"));
    assert_eq!(problem(&format!("={}1{}", "(".repeat(33), ")".repeat(33)), 10, 10), f("Formula nesting exceeds 32"));
}

#[test]
fn counts_and_text_are_bounded() {
    assert!(bounded(1, 20, "Sheets").is_ok());
    assert_eq!(bounded(0, 20, "Sheets").unwrap_err().message, "Sheets must contain 1..=20 items");
    assert_eq!(bounded(21, 20, "Sheets").unwrap_err().status, 400);
    assert!(text("中文\t\n\r").is_ok());
    assert_eq!(
        text("\u{0}").unwrap_err().message,
        "Office text is too long or contains invalid XML characters"
    );
    assert!(text("\u{fffe}").is_err());
    assert!(text(&"a".repeat(32_001)).is_err());
    assert!(text(&"a".repeat(32_000)).is_ok());
}

fn slide(title: &str, bullets: Option<Vec<&str>>, chart: Option<Option<Vec<&str>>>) -> SlideView {
    let strings = |v: Vec<&str>| v.into_iter().map(|s| Some(s.to_string())).collect::<Vec<_>>();
    SlideView { title: Some(title.to_string()), bullets: bullets.map(strings), chart: chart.map(|c| c.map(strings)) }
}

#[test]
fn layout_hints_flag_dense_content_without_claiming_rendering() {
    let title = "长标题".repeat(30);
    let slides = vec![slide(&title, Some(vec!["一行"; 12]), None)];
    assert_eq!(layout_hints(&slides).len(), 2);
    assert_eq!(layout_hints(&slides), vec![LayoutHint::LongTitle(1), LayoutHint::DenseBody(1)]);
}

#[test]
fn layout_hints_count_units_lines_and_labels() {
    let ok = slide(&"t".repeat(52), Some(vec!["a\nb\nc", "d", "a\nb\nc", "d"]), Some(Some(vec!["x"; 12])));
    assert!(layout_hints(&vec![ok]).is_empty());
    let wide = "w".repeat(65);
    let dense = slide("t", Some(vec![wide.as_str(); 5]), None);
    assert_eq!(layout_hints(&vec![slide("ok", None, None), dense]), vec![LayoutHint::DenseBody(2)]);
    let crowded = slide("t", None, Some(Some(vec!["label"; 13])));
    assert_eq!(layout_hints(&vec![crowded]), vec![LayoutHint::CrowdedChart(1)]);
    let long_label = slide("t", None, Some(Some(vec!["标签标签标签标签标签标签"])));
    assert_eq!(layout_hints(&vec![long_label]), vec![LayoutHint::CrowdedChart(1)]);
    assert!(layout_hints(&vec![slide("t", None, Some(None))]).is_empty());
    assert_eq!(
        hint_message(LayoutHint::DenseBody(3)),
        "Slide 3: dense body text may overflow; split into more slides"
    );
    assert_eq!(
        hint_message(LayoutHint::LongTitle(1)),
        "Slide 1: long title may wrap or overflow; inspect in PowerPoint"
    );
}

fn chart(kind: &str, categories: Vec<&str>, series: Vec<(&str, usize, bool)>) -> ChartView {
    ChartView {
        kind: kind.to_string(),
        title: "Sales".to_string(),
        categories: categories.into_iter().map(String::from).collect(),
        series: series
            .into_iter()
            .map(|(name, values, all_finite)| SeriesView { name: name.to_string(), values, all_finite })
            .collect(),
    }
}

#[test]
fn charts_are_validated_in_order() {
    assert!(check_chart(&chart("column", vec!["Q1", "Q2"], vec![("A", 2, true), ("B", 2, true)])).is_ok());
    let msg = |c: ChartView| check_chart(&c).err().unwrap().message;
    assert_eq!(msg(chart("radar", vec!["Q1"], vec![("A", 1, true)])), "Office generation failed: Chart kind must be column, bar, line or pie");
    assert_eq!(msg(chart("bar", vec![], vec![("A", 0, true)])), "Chart categories must contain 1..=30 items");
    assert_eq!(msg(chart("bar", vec!["Q1"], vec![])), "Chart series must contain 1..=6 items");
    assert_eq!(msg(chart("pie", vec!["Q1"], vec![("A", 1, true), ("B", 1, true)])), "Office generation failed: Pie charts require one series");
    assert_eq!(msg(chart("line", vec!["Q\u{1}"], vec![("A", 1, true)])), "Office text is too long or contains invalid XML characters");
    assert_eq!(msg(chart("line", vec!["Q1"], vec![("A", 2, true)])), "Office generation failed: Chart values must be finite and match categories");
    assert_eq!(msg(chart("line", vec!["Q1"], vec![("A", 1, false)])), "Office generation failed: Chart values must be finite and match categories");
    assert_eq!(msg(chart("line", vec!["Q1"], vec![("A", 1, true), ("\u{2}", 1, true)])), "Office text is too long or contains invalid XML characters");
}

#[test]
fn generation_requests_are_checked_before_building() {
    assert_eq!(check_office_request("pptx", Some("PPTX"), 10).unwrap(), OfficeKind::Pptx);
    assert_eq!(check_office_request("docx", Some("docx"), 1_000_000).unwrap(), OfficeKind::Docx);
    assert_eq!(check_office_request("xlsx", Some("xlsx"), 0).unwrap(), OfficeKind::Xlsx);
    let e = check_office_request("docx", Some("pptx"), 10).unwrap_err();
    assert_eq!((e.status, e.message.as_str()), (400, "Office format must match output extension"));
    assert_eq!(check_office_request("docx", None, 10).unwrap_err().status, 400);
    let e = check_office_request("docx", Some("docx"), 1_000_001).unwrap_err();
    assert_eq!((e.status, e.message.as_str()), (413, "Office input exceeds 1 MB"));
    let e = check_office_request("txt", Some("txt"), 10).unwrap_err();
    assert_eq!((e.status, e.message.as_str()), (400, "Office generation failed: Unsupported Office format"));
}

#[test]
fn slides_limit_bullets_and_keep_charts_alone() {
    assert!(check_slide(30, false).is_ok());
    assert!(check_slide(0, true).is_ok());
    assert_eq!(check_slide(31, true).unwrap_err().message, "Office generation failed: At most 30 bullets per slide");
    assert_eq!(
        check_slide(1, true).unwrap_err().message,
        "Office generation failed: Chart slides require empty bullets; use a separate text slide"
    );
    assert!(check_office_output(20_000_000).is_ok());
    let e = check_office_output(20_000_001).unwrap_err();
    assert_eq!((e.status, e.message.as_str()), (413, "Office output exceeds 20 MB"));
}
