use potato_core::start::{check_start, InputBlock, Piece, StartMessage};

fn user(blocks: Vec<InputBlock>) -> Vec<StartMessage> {
    vec![StartMessage { user: true, content: Some(blocks) }]
}

fn text(t: &str) -> InputBlock {
    InputBlock::Text { text: Some(t.to_string()) }
}

fn file(url: &str) -> InputBlock {
    InputBlock::File { url: Some(url.to_string()), name: "a.txt".to_string() }
}

fn refused(input: Option<&Vec<StartMessage>>) -> (u16, String) {
    let e = check_start(input).unwrap_err();
    (e.status, e.message)
}

#[test]
fn start_message_becomes_pieces_and_title() {
    let input = user(vec![
        text("hi "),
        InputBlock::Image { url: Some("https://example.com/a.png".to_string()) },
        text("  "),
        text("there"),
        file("data:text/plain;base64,aGVsbG8="),
    ]);
    let plan = check_start(Some(&input)).unwrap();
    assert_eq!(plan.title, "hi there");
    assert_eq!(plan.pieces.len(), 4);
    assert!(matches!(&plan.pieces[0], Piece::Text(t) if t == "hi "));
    assert!(matches!(&plan.pieces[1], Piece::Image(u) if u == "https://example.com/a.png"));
    assert!(matches!(&plan.pieces[3], Piece::File { name, text } if name == "a.txt" && text == "hello"));
    let image = user(vec![InputBlock::Image { url: Some("data:image/png;base64,AA==".to_string()) }]);
    assert_eq!(check_start(Some(&image)).unwrap().title, "");
}

#[test]
fn start_message_shape_is_checked() {
    assert_eq!(refused(None), (400, "input must be an array".to_string()));
    let two = vec![
        StartMessage { user: true, content: Some(vec![text("a")]) },
        StartMessage { user: true, content: Some(vec![text("b")]) },
    ];
    assert_eq!(refused(Some(&two)), (400, "One user message is required".to_string()));
    let assistant = vec![StartMessage { user: false, content: Some(vec![text("a")]) }];
    assert_eq!(refused(Some(&assistant)), (400, "One user message is required".to_string()));
    let no_content = vec![StartMessage { user: true, content: None }];
    assert_eq!(refused(Some(&no_content)), (400, "content must be an array".to_string()));
    assert_eq!(refused(Some(&user(vec![text(" \n")]))), (400, "Message is empty".to_string()));
    assert_eq!(refused(Some(&user(vec![]))), (400, "Message is empty".to_string()));
}

#[test]
fn start_blocks_are_refused_in_order() {
    let cases: Vec<(InputBlock, u16, &str)> = vec![
        (InputBlock::Text { text: None }, 400, "Message text must be a string"),
        (InputBlock::Image { url: None }, 400, "image_url is required"),
        (InputBlock::Image { url: Some("ftp://x".to_string()) }, 400, "Native image input requires a data URL or HTTPS URL"),
        (InputBlock::File { url: None, name: String::new() }, 400, "file_url is required"),
        (file("data:application/pdf;base64,AA=="), 415, "File requires a supported native document parser"),
        (file("data:text/plain;base64,!!!"), 400, "Invalid text attachment encoding"),
        (file("data:text/plain;base64,/w=="), 415, "Attachment must be UTF-8 text"),
        (file("data:text/plain;base64,YQA="), 415, "Binary attachment is not text"),
        (InputBlock::Other, 501, "This attachment type has not been migrated to the native runtime"),
    ];
    for (block, status, message) in cases {
        assert_eq!(refused(Some(&user(vec![text("ok"), block, InputBlock::Other]))), (status, message.to_string()));
    }
    let big = format!("data:text/plain;base64,{}", "A".repeat(1_340_004));
    assert_eq!(refused(Some(&user(vec![file(&big)]))), (413, "Text attachment exceeds 1 MB".to_string()));
}
