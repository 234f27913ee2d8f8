use potato_core::template::{
    check_replacements, check_template_request, filled_part_exec, replace_paragraph, signed_or_macro,
};

fn runs(texts: &[&str]) -> Vec<String> {
    texts.iter().map(|t| t.to_string()).collect()
}

fn pairs(items: &[(&str, &str)]) -> Vec<(String, String)> {
    items.iter().map(|(k, v)| (k.to_string(), v.to_string())).collect()
}

#[test]
fn split_placeholder_goes_to_the_run_where_it_starts() {
    let filled = replace_paragraph(
        &runs(&["客户：{{na", "me}}，结束"]),
        &pairs(&[("{{name}}", "研发 & 客户")]),
        100,
    )
    .unwrap();
    assert_eq!(filled.texts, runs(&["客户：研发 & 客户", "，结束"]));
    assert_eq!(filled.counts, vec![1]);
    assert_eq!(filled.budget, 115);
}

#[test]
fn placeholder_over_several_runs_empties_the_later_ones() {
    let filled = replace_paragraph(&runs(&["a{{", "", "x}", "}b"]), &pairs(&[("{{x}}", "V")]), 0).unwrap();
    assert_eq!(filled.texts, runs(&["aV", "", "", "b"]));
    assert_eq!(filled.counts, vec![1]);
    assert_eq!(filled.budget, 1);
}

#[test]
fn every_occurrence_is_replaced_and_counted() {
    let filled = replace_paragraph(
        &runs(&["{{k}} and {{k}}", " no {{other}}"]),
        &pairs(&[("{{k}}", "v"), ("{{other}}", ""), ("{{absent}}", "zzz")]),
        7,
    )
    .unwrap();
    assert_eq!(filled.texts, runs(&["v and v", " no "]));
    assert_eq!(filled.counts, vec![2, 1, 0]);
    assert_eq!(filled.budget, 9);
}

#[test]
fn paragraph_without_placeholders_is_unchanged() {
    let filled = replace_paragraph(&runs(&["plain", " text"]), &pairs(&[("{{k}}", "v")]), 20_000_000).unwrap();
    assert_eq!(filled.texts, runs(&["plain", " text"]));
    assert_eq!(filled.counts, vec![0]);
    assert_eq!(filled.budget, 20_000_000);
}

#[test]
fn overlapping_placeholders_are_refused() {
    let e = replace_paragraph(&runs(&["{{ab}}x"]), &pairs(&[("{{ab}}", "1"), ("{{ab}}x", "2")]), 0)
        .err()
        .unwrap();
    assert_eq!(e.status, 400);
    assert_eq!(e.message, "Office generation failed: Overlapping template placeholders");
}

#[test]
fn expansion_beyond_the_limit_is_refused() {
    let e = replace_paragraph(&runs(&["{{k}}"]), &pairs(&[("{{k}}", "xx")]), 9_999_999).err().unwrap();
    assert_eq!(e.message, "Office generation failed: Expanded template text exceeds 10 MB");
    let ok = replace_paragraph(&runs(&["{{k}}"]), &pairs(&[("{{k}}", "x")]), 9_999_999).unwrap();
    assert_eq!(ok.budget, 10_000_000);
}

#[test]
fn template_request_is_checked() {
    assert!(check_template_request("docx", 10).is_ok());
    assert!(check_template_request("pptx", 1_000_000).is_ok());
    assert_eq!(
        check_template_request("xlsx", 10).err().unwrap().message,
        "Office generation failed: Templates support DOCX and PPTX"
    );
    assert_eq!(
        check_template_request("docx", 1_000_001).err().unwrap().message,
        "Office generation failed: Template replacements exceed 1 MB"
    );
}

#[test]
fn replacement_pairs_are_checked_in_order() {
    assert!(check_replacements(&pairs(&[("{{a}}", "x"), ("{{b}}", "")]), 100).is_ok());
    let message = |p: &[(&str, &str)], bytes: usize| check_replacements(&pairs(p), bytes).err().unwrap().message;
    assert_eq!(message(&[], 1), "Replacements must contain 1..=100 items");
    assert_eq!(message(&[("name", "x")], 1), "Office generation failed: Use literal {{name}} placeholder keys");
    assert_eq!(message(&[("{{}}", "x")], 1), "Office generation failed: Use literal {{name}} placeholder keys");
    assert_eq!(message(&[("{{a}}", "two\nlines")], 1), "Office generation failed: Template replacements must be single-line text");
    assert_eq!(message(&[("{{a}}", "\u{1}")], 1), "Office text is too long or contains invalid XML characters");
    assert_eq!(
        message(&[("{{a}}", "\u{1}"), ("bad", "x")], 1),
        "Office text is too long or contains invalid XML characters"
    );
    assert_eq!(message(&[("{{a}}", "x")], 20_000_001), "Office generation failed: Template exceeds 20 MB");
    let many: Vec<(String, String)> = (0..101).map(|i| (format!("{{{{k{i}}}}}"), String::new())).collect();
    assert_eq!(check_replacements(&many, 1).err().unwrap().message, "Replacements must contain 1..=100 items");
}

#[test]
fn only_text_parts_are_filled() {
    assert!(filled_part_exec(true, "word/document.xml"));
    assert!(filled_part_exec(true, "word/header1.xml"));
    assert!(filled_part_exec(true, "word/footnotes.xml"));
    assert!(!filled_part_exec(true, "word/styles.xml"));
    assert!(!filled_part_exec(true, "word/_rels/document.xml.rels"));
    assert!(!filled_part_exec(true, "word/header/_rels/x.xml"));
    assert!(filled_part_exec(false, "ppt/slides/slide1.xml"));
    assert!(filled_part_exec(false, "ppt/notesSlides/notesSlide2.xml"));
    assert!(!filled_part_exec(false, "ppt/slides/_rels/slide1.xml.rels"));
    assert!(!filled_part_exec(false, "word/document.xml"));
    assert!(signed_or_macro("word/vbaProject.bin"));
    assert!(signed_or_macro("_xmlsignatures/sig1.xml"));
    assert!(!signed_or_macro("word/document.xml"));
}
