//! The user message that starts a turn: its blocks checked and turned into
//! the content sent to the model, and the text that titles a new chat.
use vstd::prelude::*;
use vstd::utf8::{decode_utf8, valid_utf8};
use crate::context::{utf8_len, utf8_length};
use crate::error::{missing, required, Error};
use crate::file_ops::utf8_string;
use crate::template::{begins, begins_exec};
use crate::text::{blank, chars_of, is_blank};

verus! {

/// One block of the user message, as the request gives it. A field that is
/// absent or not text is `None`.
pub enum InputBlock {
    /// A `text` block.
    Text { text: Option<String> },
    /// An `image` block and its `image_url`.
    Image { url: Option<String> },
    /// A `file` block, its `file_url` and its name (`file_name`, else
    /// `filename`, else empty).
    File { url: Option<String>, name: String },
    /// Any other block type.
    Other,
}

pub enum BlockModel {
    Text { text: Option<Seq<char>> },
    Image { url: Option<Seq<char>> },
    File { url: Option<Seq<char>>, name: Seq<char> },
    Other,
}

pub open spec fn opt_chars(o: Option<String>) -> Option<Seq<char>> {
    match o {
        Some(s) => Some(s@),
        None => None,
    }
}

impl View for InputBlock {
    type V = BlockModel;

    open spec fn view(&self) -> BlockModel {
        match self {
            InputBlock::Text { text } => BlockModel::Text { text: opt_chars(*text) },
            InputBlock::Image { url } => BlockModel::Image { url: opt_chars(*url) },
            InputBlock::File { url, name } => BlockModel::File { url: opt_chars(*url), name: name@ },
            InputBlock::Other => BlockModel::Other,
        }
    }
}

/// A message of the request's `input`: whether its role is `user`, and its
/// content blocks, `None` where `content` is not an array.
pub struct StartMessage {
    pub user: bool,
    pub content: Option<Vec<InputBlock>>,
}

/// A piece of the content sent to the model.
#[derive(Debug)]
pub enum Piece {
    Text(String),
    /// An image by its data or HTTPS URL.
    Image(String),
    /// A text attachment: its name and its text.
    File { name: String, text: String },
}

pub enum PieceModel {
    Text(Seq<char>),
    Image(Seq<char>),
    File { name: Seq<char>, text: Seq<char> },
}

impl View for Piece {
    type V = PieceModel;

    open spec fn view(&self) -> PieceModel {
        match self {
            Piece::Text(t) => PieceModel::Text(t@),
            Piece::Image(u) => PieceModel::Image(u@),
            Piece::File { name, text } => PieceModel::File { name: name@, text: text@ },
        }
    }
}

pub open spec fn piece_views(v: Seq<Piece>) -> Seq<PieceModel> {
    v.map_values(|p: Piece| p@)
}

pub open spec fn block_views(v: Seq<InputBlock>) -> Seq<BlockModel> {
    v.map_values(|b: InputBlock| b@)
}

/// What the base64 standard alphabet, with padding, decodes the text to;
/// `None` where it is no such encoding.
pub uninterp spec fn base64_standard(text: Seq<char>) -> Option<Seq<u8>>;

/// `base64::engine::general_purpose::STANDARD.decode`: the bytes that the
/// text encodes, or `None` where it is not standard padded base64.
#[verifier::external_body]
fn decode_standard(text: &str) -> (r: Option<Vec<u8>>)
    ensures
        match r {
            Some(b) => base64_standard(text@) == Some(b@),
            None => base64_standard(text@) is None,
        },
{
    base64::Engine::decode(&base64::engine::general_purpose::STANDARD, text).ok()
}

/// The prefix of an inline text attachment.
pub open spec fn text_data_prefix() -> Seq<char> {
    "data:text/plain;base64,"@
}

/// The largest encoded and decoded text attachment, in bytes.
pub const ENCODED_LIMIT: u128 = 1_340_000;
pub const ATTACHMENT_LIMIT: usize = 1_000_000;

/// What a file block becomes: its text, or the refusal.
pub open spec fn file_piece(url: Seq<char>, name: Seq<char>) -> Result<PieceModel, (u16, Seq<char>)> {
    if !begins(url, text_data_prefix()) {
        Err((415u16, "File requires a supported native document parser"@))
    } else {
        let encoded = url.skip(text_data_prefix().len() as int);
        if utf8_len(encoded) > ENCODED_LIMIT {
            Err((413u16, "Text attachment exceeds 1 MB"@))
        } else {
            match base64_standard(encoded) {
                None => Err((400u16, "Invalid text attachment encoding"@)),
                Some(bytes) => if bytes.len() > ATTACHMENT_LIMIT {
                    Err((413u16, "Text attachment exceeds 1 MB"@))
                } else if !valid_utf8(bytes) {
                    Err((415u16, "Attachment must be UTF-8 text"@))
                } else if decode_utf8(bytes).contains('\0') {
                    Err((415u16, "Binary attachment is not text"@))
                } else {
                    Ok(PieceModel::File { name, text: decode_utf8(bytes) })
                },
            }
        }
    }
}

pub open spec fn or_empty(o: Option<Seq<char>>) -> Seq<char> {
    match o {
        Some(s) => s,
        None => Seq::empty(),
    }
}

/// What one block becomes: a piece, nothing (blank text), or the refusal.
pub open spec fn block_piece(b: BlockModel) -> Result<Option<PieceModel>, (u16, Seq<char>)> {
    match b {
        BlockModel::Text { text } => match text {
            None => Err((400u16, "Message text must be a string"@)),
            Some(t) => if blank(t) {
                Ok(None)
            } else {
                Ok(Some(PieceModel::Text(t)))
            },
        },
        BlockModel::Image { url } => match missing(or_empty(url), "image_url"@) {
            Some(e) => Err(e),
            None => if begins(or_empty(url), "data:image/"@) || begins(or_empty(url), "https://"@) {
                Ok(Some(PieceModel::Image(or_empty(url))))
            } else {
                Err((400u16, "Native image input requires a data URL or HTTPS URL"@))
            },
        },
        BlockModel::File { url, name } => match missing(or_empty(url), "file_url"@) {
            Some(e) => Err(e),
            None => match file_piece(or_empty(url), name) {
                Ok(p) => Ok(Some(p)),
                Err(e) => Err(e),
            },
        },
        BlockModel::Other => Err((501u16, "This attachment type has not been migrated to the native runtime"@)),
    }
}

/// The text a piece adds to the title: that of a text piece.
pub open spec fn title_part(p: PieceModel) -> Seq<char> {
    match p {
        PieceModel::Text(t) => t,
        _ => Seq::empty(),
    }
}

/// The pieces and title of the first `n` blocks, or the first refusal.
pub open spec fn spec_blocks(blocks: Seq<BlockModel>, n: int) -> Result<(Seq<PieceModel>, Seq<char>), (u16, Seq<char>)>
    decreases n,
{
    if n <= 0 {
        Ok((Seq::empty(), Seq::empty()))
    } else {
        match spec_blocks(blocks, n - 1) {
            Err(e) => Err(e),
            Ok((pieces, title)) => match block_piece(blocks[n - 1]) {
                Err(e) => Err(e),
                Ok(None) => Ok((pieces, title)),
                Ok(Some(p)) => Ok((pieces.push(p), title + title_part(p))),
            },
        }
    }
}

/// What a turn is started with: the pieces for the model and the title of a
/// new chat (the text blocks joined).
#[derive(Debug)]
pub struct StartPlan {
    pub pieces: Vec<Piece>,
    pub title: String,
}

/// The start of a turn: one user message whose content blocks all pass,
/// with something left to send.
pub open spec fn spec_start(input: Option<Seq<(bool, Option<Seq<BlockModel>>)>>) -> Result<
    (Seq<PieceModel>, Seq<char>),
    (u16, Seq<char>),
> {
    match input {
        None => Err((400u16, "input must be an array"@)),
        Some(msgs) => if msgs.len() != 1 || !msgs[0].0 {
            Err((400u16, "One user message is required"@))
        } else {
            match msgs[0].1 {
                None => Err((400u16, "content must be an array"@)),
                Some(blocks) => match spec_blocks(blocks, blocks.len() as int) {
                    Err(e) => Err(e),
                    Ok((pieces, title)) => if pieces.len() == 0 {
                        Err((400u16, "Message is empty"@))
                    } else {
                        Ok((pieces, title))
                    },
                },
            }
        }
    }
}

pub open spec fn message_views(v: Seq<StartMessage>) -> Seq<(bool, Option<Seq<BlockModel>>)> {
    v.map_values(
        |m: StartMessage|
            (
                m.user,
                match m.content {
                    Some(c) => Some(block_views(c@)),
                    None => None,
                },
            ),
    )
}

fn text_piece(url: &str, name: &str) -> (r: Result<Piece, Error>)
    ensures
        match file_piece(url@, name@) {
            Ok(p) => r matches Ok(q) && q@ == p,
            Err((status, m)) => r matches Err(e) && e.status == status && e.message@ == m,
        },
{
    let c = chars_of(url);
    if !begins_exec(&c, "data:text/plain;base64,") {
        return Err(Error::new(415, "File requires a supported native document parser"));
    }
    proof {
        reveal_strlit("data:text/plain;base64,");
    }
    let mut encoded = String::new();
    let mut i: usize = 23;
    while i < c.len()
        invariant
            23 <= i <= c.len(),
            c@ == url@,
            encoded@ == url@.subrange(23, i as int),
        decreases c.len() - i,
    {
        crate::text::push_char(&mut encoded, c[i]);
        proof {
            assert(url@.subrange(23, i + 1) == url@.subrange(23, i as int).push(url@[i as int]));
        }
        i = i + 1;
    }
    proof {
        assert(encoded@ =~= url@.skip(text_data_prefix().len() as int));
    }
    if utf8_length(encoded.as_str()) > ENCODED_LIMIT {
        return Err(Error::new(413, "Text attachment exceeds 1 MB"));
    }
    let bytes = match decode_standard(encoded.as_str()) {
        None => {
            return Err(Error::new(400, "Invalid text attachment encoding"));
        },
        Some(b) => b,
    };
    if bytes.len() > ATTACHMENT_LIMIT {
        return Err(Error::new(413, "Text attachment exceeds 1 MB"));
    }
    let text = match utf8_string(bytes) {
        None => {
            return Err(Error::new(415, "Attachment must be UTF-8 text"));
        },
        Some(t) => t,
    };
    if crate::file_ops::contains_nul(text.as_str()) {
        proof {
            let j = choose|j: int| 0 <= j < text@.len() && text@[j] == '\0';
            assert(text@.contains('\0'));
        }
        return Err(Error::new(415, "Binary attachment is not text"));
    }
    proof {
        if text@.contains('\0') {
            let j = choose|j: int| 0 <= j < text@.len() && text@[j] == '\0';
            assert(crate::file_ops::has_nul(text@));
        }
    }
    Ok(Piece::File { name: name.to_owned(), text })
}

fn block_exec(b: &InputBlock) -> (r: Result<Option<Piece>, Error>)
    ensures
        match block_piece(b@) {
            Ok(Some(p)) => r matches Ok(Some(q)) && q@ == p,
            Ok(None) => r matches Ok(None),
            Err((status, m)) => r matches Err(e) && e.status == status && e.message@ == m,
        },
{
    match b {
        InputBlock::Text { text } => match text {
            None => Err(Error::new(400, "Message text must be a string")),
            Some(t) => if is_blank(t.as_str()) {
                Ok(None)
            } else {
                Ok(Some(Piece::Text(t.clone())))
            },
        },
        InputBlock::Image { url } => {
            let u: &str = match url {
                Some(s) => s.as_str(),
                None => "",
            };
            proof {
                reveal_strlit("");
            }
            if let Err(e) = required(u, "image_url") {
                return Err(e);
            }
            let c = chars_of(u);
            if begins_exec(&c, "data:image/") || begins_exec(&c, "https://") {
                Ok(Some(Piece::Image(u.to_owned())))
            } else {
                Err(Error::new(400, "Native image input requires a data URL or HTTPS URL"))
            }
        },
        InputBlock::File { url, name } => {
            let u: &str = match url {
                Some(s) => s.as_str(),
                None => "",
            };
            proof {
                reveal_strlit("");
            }
            if let Err(e) = required(u, "file_url") {
                return Err(e);
            }
            match text_piece(u, name.as_str()) {
                Ok(p) => Ok(Some(p)),
                Err(e) => Err(e),
            }
        },
        InputBlock::Other => Err(Error::new(501, "This attachment type has not been migrated to the native runtime")),
    }
}

/// Checks the user message that starts a turn and gives what is sent to
/// the model and the chat's title. `input` is `None` where the request's
/// `input` is not an array.
pub fn check_start(input: Option<&Vec<StartMessage>>) -> (r: Result<StartPlan, Error>)
    ensures
        match spec_start(
            match input {
                Some(v) => Some(message_views(v@)),
                None => None,
            },
        ) {
            Ok((pieces, title)) => r matches Ok(p) && piece_views(p.pieces@) == pieces && p.title@ == title,
            Err((status, m)) => r matches Err(e) && e.status == status && e.message@ == m,
        },
{
    let msgs = match input {
        None => {
            return Err(Error::new(400, "input must be an array"));
        },
        Some(v) => v,
    };
    let ghost mv = message_views(msgs@);
    if msgs.len() != 1 || !msgs[0].user {
        return Err(Error::new(400, "One user message is required"));
    }
    let blocks = match &msgs[0].content {
        None => {
            return Err(Error::new(400, "content must be an array"));
        },
        Some(c) => c,
    };
    let ghost bv = block_views(blocks@);
    proof {
        assert(mv[0].1 == Some(bv));
        assert(mv.len() == 1 && mv[0].0);
    }
    let mut pieces: Vec<Piece> = Vec::new();
    let mut title = String::new();
    proof {
        assert(piece_views(pieces@) =~= Seq::<PieceModel>::empty());
        assert(title@ =~= Seq::<char>::empty());
    }
    for i in 0..blocks.len()
        invariant
            bv == block_views(blocks@),
            bv.len() == blocks.len(),
            input == Some(msgs),
            mv == message_views(msgs@),
            mv.len() == 1,
            mv[0].0,
            mv[0].1 == Some(bv),
            spec_blocks(bv, i as int) == Ok::<(Seq<PieceModel>, Seq<char>), (u16, Seq<char>)>(
                (piece_views(pieces@), title@),
            ),
    {
        proof {
            assert(bv[i as int] == blocks[i as int]@);
        }
        match block_exec(&blocks[i]) {
            Err(e) => {
                proof {
                    assert(spec_blocks(bv, i + 1) is Err);
                    lemma_blocks_fail(bv, i as int + 1, blocks.len() as int);
                }
                return Err(e);
            },
            Ok(None) => {},
            Ok(Some(p)) => {
                let ghost before = piece_views(pieces@);
                match &p {
                    Piece::Text(t) => {
                        title.append(t.as_str());
                    },
                    _ => {
                        proof {
                            assert(title@ =~= title@ + title_part(p@));
                        }
                    },
                }
                pieces.push(p);
                proof {
                    assert(piece_views(pieces@) =~= before.push(pieces@.last()@));
                }
            },
        }
    }
    proof {
        assert(bv.len() == blocks.len());
    }
    if pieces.len() == 0 {
        return Err(Error::new(400, "Message is empty"));
    }
    Ok(StartPlan { pieces, title })
}

proof fn lemma_blocks_fail(bv: Seq<BlockModel>, i: int, n: int)
    requires
        0 < i <= n,
        spec_blocks(bv, i) is Err,
    ensures
        spec_blocks(bv, n) == spec_blocks(bv, i),
    decreases n - i,
{
    if i < n {
        lemma_blocks_fail(bv, i, n - 1);
    }
}

} // verus!
