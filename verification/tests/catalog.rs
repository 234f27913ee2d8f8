use potato_core::catalog::{validate_catalog, CatalogRow};

fn row(id: &str, options: Option<Vec<&str>>) -> CatalogRow {
    CatalogRow {
        id: Some(id.to_string()),
        options: options.map(|o| o.into_iter().map(|s| Some(s.to_string())).collect()),
    }
}

fn invalid(rows: Option<&Vec<CatalogRow>>, default_model: Option<&str>) -> bool {
    match validate_catalog(rows, default_model) {
        Err(e) => e.status == 502 && e.message == "云端模型目录无效",
        Ok(_) => false,
    }
}

#[test]
fn a_valid_catalog_names_its_default_row() {
    let rows = vec![row("openai/gpt", None), row("deepseek/chat", Some(vec!["low", "high"]))];
    assert_eq!(validate_catalog(Some(&rows), Some("deepseek/chat")).unwrap(), 1);
    assert_eq!(validate_catalog(Some(&rows), Some("openai/gpt")).unwrap(), 0);
}

#[test]
fn catalog_shape_is_checked() {
    assert!(invalid(None, Some("a/b")));
    assert!(invalid(Some(&vec![]), Some("a/b")));
    let many: Vec<CatalogRow> = (0..501).map(|i| row(&format!("p/m{i}"), None)).collect();
    assert!(invalid(Some(&many), Some("p/m0")));
    let most: Vec<CatalogRow> = (0..500).map(|i| row(&format!("p/m{i}"), None)).collect();
    assert_eq!(validate_catalog(Some(&most), Some("p/m499")).unwrap(), 499);
}

#[test]
fn model_ids_need_a_provider_and_a_model() {
    for bad in ["nomodel", "/m", "p/", "", "/"] {
        assert!(invalid(Some(&vec![row(bad, None)]), Some(bad)), "{bad}");
    }
    assert!(validate_catalog(Some(&vec![row("p/m/x", None)]), Some("p/m/x")).is_ok());
    let long = format!("p/{}", "m".repeat(238));
    assert!(validate_catalog(Some(&vec![row(&long, None)]), Some(&long)).is_ok());
    let too_long = format!("p/{}", "m".repeat(239));
    assert!(invalid(Some(&vec![row(&too_long, None)]), Some(&too_long)));
    let missing = vec![CatalogRow { id: None, options: None }];
    assert!(invalid(Some(&missing), Some("a/b")));
}

#[test]
fn ids_are_unique_and_the_default_must_exist() {
    let twice = vec![row("a/b", None), row("a/b", None)];
    assert!(invalid(Some(&twice), Some("a/b")));
    let rows = vec![row("a/b", None)];
    assert!(invalid(Some(&rows), Some("a/c")));
    assert!(invalid(Some(&rows), None));
}

#[test]
fn reasoning_options_are_short_strings() {
    assert!(invalid(Some(&vec![row("a/b", Some(vec![""]))]), Some("a/b")));
    let long = "x".repeat(33);
    assert!(invalid(Some(&vec![row("a/b", Some(vec![long.as_str()]))]), Some("a/b")));
    let many = vec!["low"; 33];
    assert!(invalid(Some(&vec![row("a/b", Some(many))]), Some("a/b")));
    assert!(validate_catalog(Some(&vec![row("a/b", Some(vec!["low"; 32]))]), Some("a/b")).is_ok());
    let not_text = vec![CatalogRow { id: Some("a/b".to_string()), options: Some(vec![None]) }];
    assert!(invalid(Some(&not_text), Some("a/b")));
}
