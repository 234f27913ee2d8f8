use potato_core::import::{merge_providers, Entry, Origin};

fn e(id: &str, keyed: bool, origin: Origin) -> Entry {
    Entry { id: id.to_string(), keyed, origin }
}

fn shape(list: &[Entry]) -> Vec<(String, Origin)> {
    list.iter().map(|x| (x.id.clone(), x.origin)).collect()
}

#[test]
fn imports_replace_keyless_entries_and_defaults_fill_gaps() {
    let saved = vec![
        e("deepseek", true, Origin::Saved(0)),
        e("openai", false, Origin::Saved(1)),
        e("local", false, Origin::Saved(2)),
    ];
    let imported = vec![
        e("deepseek", true, Origin::Imported(0)),
        e("openai", true, Origin::Imported(1)),
        e("kimi", true, Origin::Imported(2)),
        e("kimi", true, Origin::Imported(3)),
    ];
    let defaults = vec![e("deepseek", false, Origin::Default(0)), e("sub2api", false, Origin::Default(1))];
    let (list, count) = merge_providers(&saved, &imported, &defaults);
    assert_eq!(count, 2);
    assert_eq!(
        shape(&list),
        vec![
            ("deepseek".to_string(), Origin::Saved(0)),
            ("local".to_string(), Origin::Saved(2)),
            ("openai".to_string(), Origin::Imported(1)),
            ("kimi".to_string(), Origin::Imported(2)),
            ("sub2api".to_string(), Origin::Default(1)),
        ]
    );
    let (empty, none) = merge_providers(&Vec::new(), &Vec::new(), &Vec::new());
    assert!(empty.is_empty());
    assert_eq!(none, 0);
}
