//! Rich inputs and outputs: images, audio, files, conversations, code,
//! reasoning, documents and citations, and the content blocks that carry them.

use crate::json::{
    copy_object, empty_object, json_list, json_object, lemma_json_list, lemma_json_object,
    member_of, member_text, nat_in, nests_within, new_object, parsed_json, printed_json, push_json,
    put, put_text, read_ok, Json, JsonSpec,
};
use crate::signature::opt_view;
use crate::strmap::StrMap;
use crate::text::{
    before, before_of, byte_len, byte_len_of, chars_of, contains, dec_of, dec_size, find_chars,
    find_first, find_from, find_text, has_text, matches_at, occurs_at, replace, replace_of, same,
    slice_text, split, split_of, texts, trim, trim_of,
};
use crate::unicode::{
    all_ascii, ascii_lower, ascii_upper, lower_of, to_lowercase, to_uppercase, upper_of,
};
use base64::Engine;
use vstd::prelude::*;

verus! {

/// Opens a serialized value inside a message.
pub const CUSTOM_TYPE_START: &'static str = "<<CUSTOM-TYPE-START-IDENTIFIER>>";

/// Closes a serialized value inside a message.
pub const CUSTOM_TYPE_END: &'static str = "<<CUSTOM-TYPE-END-IDENTIFIER>>";

/// What a content block says.
pub type BlockSpec = Map<Seq<char>, JsonSpec>;

/// A content block, as multimodal interfaces take it.
pub type ContentBlock = StrMap<Json>;

/// What the blocks of a list say.
pub open spec fn block_list(v: Seq<StrMap<Json>>) -> Seq<BlockSpec> {
    v.map_values(|m: StrMap<Json>| json_object(m))
}

/// A list of blocks in JSON.
pub open spec fn blocks_json(blocks: Seq<BlockSpec>) -> JsonSpec {
    JsonSpec::Array(blocks.map_values(|m: BlockSpec| JsonSpec::Object(m)))
}

/// What a rich value becomes for a model.
pub enum OutputSpec {
    Blocks(Seq<BlockSpec>),
    Text(Seq<char>),
}

/// What a rich value becomes for a model: content blocks or plain text.
#[derive(Debug)]
pub enum AdapterTypeOutput {
    Blocks(Vec<ContentBlock>),
    Text(String),
}

impl View for AdapterTypeOutput {
    type V = OutputSpec;

    open spec fn view(&self) -> OutputSpec {
        match self {
            AdapterTypeOutput::Blocks(v) => OutputSpec::Blocks(block_list(v@)),
            AdapterTypeOutput::Text(s) => OutputSpec::Text(s@),
        }
    }
}

/// The text that stands for a rich value inside a message.
pub open spec fn serialized(o: OutputSpec) -> Seq<char> {
    match o {
        OutputSpec::Blocks(b) => CUSTOM_TYPE_START@ + printed_json(blocks_json(b))
            + CUSTOM_TYPE_END@,
        OutputSpec::Text(s) => s,
    }
}

/// The JSON text of the blocks is read back as the blocks, unless they nest too deep.
pub open spec fn prints_back(o: OutputSpec) -> bool {
    match o {
        OutputSpec::Blocks(b) => {
            let j = blocks_json(b);
            &&& trim_of(printed_json(j)) == printed_json(j)
            &&& nests_within(j, 127) ==> parsed_json(printed_json(j)) == read_ok(j)
        },
        OutputSpec::Text(_) => true,
    }
}

/// Appends a block to a list.
pub fn push_block(v: &mut Vec<ContentBlock>, b: ContentBlock)
    ensures
        block_list(final(v)@) == block_list(old(v)@).push(json_object(b)),
{
    v.push(b);
    proof {
        assert(block_list(v@) =~= block_list(old(v)@).push(json_object(b)));
    }
}

/// The JSON array of a list of blocks.
pub fn blocks_to_json(blocks: &Vec<ContentBlock>) -> (r: Json)
    ensures
        r@ == blocks_json(block_list(blocks@)),
{
    let mut items: Vec<Json> = Vec::new();
    let mut i: usize = 0;
    let ghost want = block_list(blocks@).map_values(|m: BlockSpec| JsonSpec::Object(m));
    while i < blocks.len()
        invariant
            i <= blocks.len(),
            want == block_list(blocks@).map_values(|m: BlockSpec| JsonSpec::Object(m)),
            json_list(items@) == want.take(i as int),
        decreases blocks.len() - i,
    {
        let item = Json::Object(copy_object(&blocks[i]));
        proof {
            assert(want.take(i + 1) =~= want.take(i as int).push(item@));
        }
        push_json(&mut items, item);
        i = i + 1;
    }
    proof {
        assert(want.take(i as int) =~= want);
    }
    Json::Array(items)
}

/// A value that a model takes in a form of its own.
pub trait AdapterType {
    /// What the value becomes.
    spec fn formatted(&self) -> OutputSpec;

    /// What the value becomes: content blocks or plain text.
    fn format(&self) -> (r: AdapterTypeOutput)
        ensures
            r@ == self.formatted(),
    ;

    /// The text that stands for the value inside a message. Blocks are put between
    /// markers, so that they can be found again.
    fn serialize(&self) -> (r: String)
        ensures
            r@ == serialized(self.formatted()),
            prints_back(self.formatted()),
    {
        match self.format() {
            AdapterTypeOutput::Blocks(blocks) => {
                let mut r = CUSTOM_TYPE_START.to_string();
                r.append(blocks_to_json(&blocks).to_text().as_str());
                r.append(CUSTOM_TYPE_END);
                r
            },
            AdapterTypeOutput::Text(s) => s,
        }
    }
}

/// The only block of a list.
fn one_block(b: ContentBlock) -> (r: AdapterTypeOutput)
    ensures
        r@ == OutputSpec::Blocks(seq![json_object(b)]),
{
    let mut v: Vec<ContentBlock> = Vec::new();
    proof {
        assert(block_list(v@) =~= Seq::<BlockSpec>::empty());
    }
    push_block(&mut v, b);
    AdapterTypeOutput::Blocks(v)
}

// ---------------------------------------------------------------------------
// Bytes as text
// ---------------------------------------------------------------------------

/// The text that base64 with the standard alphabet and padding gives for bytes.
pub uninterp spec fn base64_of(bytes: Seq<u8>) -> Seq<char>;

/// `base64::engine::general_purpose::STANDARD.encode`. The text is
/// [`base64_of`] of the bytes.
#[verifier::external_body]
fn encode_base64(bytes: &[u8]) -> (r: String)
    ensures
        r@ == base64_of(bytes@),
{
    base64::engine::general_purpose::STANDARD.encode(bytes)
}

/// A data URI.
pub open spec fn data_uri_of(mime: Seq<char>, data: Seq<char>) -> Seq<char> {
    "data:"@ + mime + ";base64,"@ + data
}

fn data_uri(mime: &str, bytes: &[u8]) -> (r: String)
    ensures
        r@ == data_uri_of(mime@, base64_of(bytes@)),
{
    let mut r = "data:".to_string();
    r.append(mime);
    r.append(";base64,");
    r.append(encode_base64(bytes).as_str());
    r
}

// ---------------------------------------------------------------------------
// Image
// ---------------------------------------------------------------------------

/// An image, by its URL or as a data URI.
#[derive(Debug, Clone)]
pub struct Image {
    pub url: String,
}

/// The media type of an image file with a lower-case extension.
pub open spec fn image_mime_of(ext: Seq<char>) -> Seq<char> {
    if ext == "png"@ {
        "image/png"@
    } else if ext == "jpg"@ || ext == "jpeg"@ {
        "image/jpeg"@
    } else if ext == "gif"@ {
        "image/gif"@
    } else if ext == "webp"@ {
        "image/webp"@
    } else if ext == "svg"@ {
        "image/svg+xml"@
    } else if ext == "bmp"@ {
        "image/bmp"@
    } else {
        "application/octet-stream"@
    }
}

/// The media type of an image file with a lower-case extension.
pub fn image_mime(ext: &str) -> (r: &'static str)
    ensures
        r@ == image_mime_of(ext@),
{
    if same(ext, "png") {
        "image/png"
    } else if same(ext, "jpg") || same(ext, "jpeg") {
        "image/jpeg"
    } else if same(ext, "gif") {
        "image/gif"
    } else if same(ext, "webp") {
        "image/webp"
    } else if same(ext, "svg") {
        "image/svg+xml"
    } else if same(ext, "bmp") {
        "image/bmp"
    } else {
        "application/octet-stream"
    }
}

impl Image {
    /// The image at a URL.
    pub fn new(url: &str) -> (r: Self)
        ensures
            r.url@ == url@,
    {
        Image { url: url.to_owned() }
    }

    /// The image that the bytes hold.
    pub fn from_bytes(bytes: &[u8], mime_type: &str) -> (r: Self)
        ensures
            r.url@ == data_uri_of(mime_type@, base64_of(bytes@)),
    {
        Image { url: data_uri(mime_type, bytes) }
    }

    /// The image that a file with the given extension holds.
    pub fn from_file_contents(bytes: &[u8], extension: &str) -> (r: Self)
        ensures
            r.url@ == data_uri_of(image_mime_of(lower_of(extension@)), base64_of(bytes@)),
    {
        let ext = to_lowercase(extension);
        Image::from_bytes(bytes, image_mime(ext.as_str()))
    }

    /// What the type is for.
    pub fn description() -> (r: String)
        ensures
            r@ == "An image URL or base64-encoded data URI."@,
    {
        "An image URL or base64-encoded data URI.".to_string()
    }

    /// The text that stands for the image.
    pub fn to_text(&self) -> (r: String)
        ensures
            r@ == serialized(self.formatted()),
    {
        self.serialize()
    }
}

impl AdapterType for Image {
    open spec fn formatted(&self) -> OutputSpec {
        OutputSpec::Blocks(
            seq![
                empty_object().insert("type"@, JsonSpec::Text("image_url"@)).insert(
                    "image_url"@,
                    JsonSpec::Object(empty_object().insert("url"@, JsonSpec::Text(self.url@))),
                ),
            ],
        )
    }

    fn format(&self) -> (r: AdapterTypeOutput) {
        let mut block = new_object();
        put_text(&mut block, "type", "image_url");
        let mut inner = new_object();
        put_text(&mut inner, "url", self.url.as_str());
        put(&mut block, "image_url", Json::Object(inner));
        one_block(block)
    }
}

// ---------------------------------------------------------------------------
// Audio
// ---------------------------------------------------------------------------

/// Audio data in base64, with its format.
#[derive(Debug, Clone)]
pub struct Audio {
    pub data: String,
    pub audio_format: String,
}

/// `s` without any number of `p` at its start.
pub open spec fn strip_all_of(s: Seq<char>, p: Seq<char>) -> Seq<char>
    decreases s.len(),
{
    if p.len() > 0 && occurs_at(s, p, 0) {
        strip_all_of(s.subrange(p.len() as int, s.len() as int), p)
    } else {
        s
    }
}

/// `s` without any number of `p` at its start.
fn strip_all(s: &str, p: &str) -> (r: String)
    requires
        p@.len() > 0,
    ensures
        r@ == strip_all_of(s@, p@),
{
    let v = chars_of(s);
    let n = chars_of(p);
    let mut i: usize = 0;
    proof {
        assert(v@.subrange(0, v@.len() as int) =~= v@);
    }
    while matches_at(&v, &n, i)
        invariant
            n@.len() > 0,
            n@ == p@,
            v@ == s@,
            i <= v.len(),
            strip_all_of(s@, p@) == strip_all_of(v@.subrange(i as int, v@.len() as int), p@),
        decreases v.len() - i,
    {
        proof {
            let rest = v@.subrange(i as int, v@.len() as int);
            assert(rest.subrange(0, n@.len() as int) =~= v@.subrange(i as int, i + n@.len()));
            assert(rest.subrange(n@.len() as int, rest.len() as int) =~= v@.subrange(
                i + n@.len(),
                v@.len() as int,
            ));
        }
        i = i + n.len();
    }
    proof {
        let rest = v@.subrange(i as int, v@.len() as int);
        if n@.len() <= rest.len() {
            assert(rest.subrange(0, n@.len() as int) =~= v@.subrange(i as int, i + n@.len()));
        }
    }
    slice_text(&v, i, v.len())
}

/// The media type in the header of a data URI.
pub open spec fn uri_mime(uri: Seq<char>) -> Seq<char> {
    strip_all_of(before_of(before_of(uri, ","@), ";"@), "data:"@)
}

/// The data of a data URI: what follows the first comma.
pub open spec fn uri_data(uri: Seq<char>) -> Seq<char> {
    match find_first(uri, ","@) {
        Some(p) => uri.subrange(p + 1, uri.len() as int),
        None => Seq::empty(),
    }
}

/// The audio format in a media type: what stands between the first two slashes,
/// without any `x-`.
pub open spec fn mime_format(mime: Seq<char>) -> Seq<char> {
    let pieces = split_of(mime, '/');
    replace_of(
        if pieces.len() > 1 {
            pieces[1]
        } else {
            Seq::empty()
        },
        "x-"@,
        Seq::empty(),
    )
}

impl Audio {
    /// Audio from base64 data.
    pub fn new(data: &str, audio_format: &str) -> (r: Self)
        ensures
            r.data@ == data@,
            r.audio_format@ == audio_format@,
    {
        Audio { data: data.to_owned(), audio_format: audio_format.to_owned() }
    }

    /// Audio from bytes.
    pub fn from_bytes(bytes: &[u8], audio_format: &str) -> (r: Self)
        ensures
            r.data@ == base64_of(bytes@),
            r.audio_format@ == audio_format@,
    {
        Audio { data: encode_base64(bytes), audio_format: audio_format.to_owned() }
    }

    /// Audio from a file with the given extension, which names the format.
    pub fn from_file_contents(bytes: &[u8], extension: &str) -> (r: Self)
        ensures
            r.data@ == base64_of(bytes@),
            r.audio_format@ == lower_of(extension@),
    {
        Audio { data: encode_base64(bytes), audio_format: to_lowercase(extension) }
    }

    /// Audio from a data URI such as `data:audio/wav;base64,...`.
    pub fn from_data_uri(uri: &str) -> (r: Self)
        ensures
            r.data@ == uri_data(uri@),
            r.audio_format@ == mime_format(uri_mime(uri@)),
    {
        proof {
            reveal_strlit(",");
            reveal_strlit("data:");
            reveal_strlit("x-");
            reveal_strlit("");
            assert(""@ =~= Seq::<char>::empty());
        }
        let v = chars_of(uri);
        let n: usize = v.len();
        let data = match find_text(uri, ",") {
            Some(p) => slice_text(&v, p + 1, n),
            None => String::new(),
        };
        let header = before(uri, ",");
        let first = before(header.as_str(), ";");
        let mime = strip_all(first.as_str(), "data:");
        let pieces = split(mime.as_str(), '/');
        let raw = if pieces.len() > 1 {
            pieces[1].clone()
        } else {
            String::new()
        };
        proof {
            assert(texts(pieces@).len() == pieces@.len());
            if pieces@.len() > 1 {
                assert(texts(pieces@)[1] == pieces@[1]@);
            }
        }
        Audio { data, audio_format: replace(raw.as_str(), "x-", "") }
    }

    /// What the type is for.
    pub fn description() -> (r: String)
        ensures
            r@ == "Audio data encoded as base64 with an audio format."@,
    {
        "Audio data encoded as base64 with an audio format.".to_string()
    }

    /// The text that stands for the audio.
    pub fn to_text(&self) -> (r: String)
        ensures
            r@ == serialized(self.formatted()),
    {
        self.serialize()
    }
}

impl AdapterType for Audio {
    open spec fn formatted(&self) -> OutputSpec {
        OutputSpec::Blocks(
            seq![
                empty_object().insert("type"@, JsonSpec::Text("input_audio"@)).insert(
                    "input_audio"@,
                    JsonSpec::Object(
                        empty_object().insert("data"@, JsonSpec::Text(self.data@)).insert(
                            "format"@,
                            JsonSpec::Text(self.audio_format@),
                        ),
                    ),
                ),
            ],
        )
    }

    fn format(&self) -> (r: AdapterTypeOutput) {
        let mut block = new_object();
        put_text(&mut block, "type", "input_audio");
        let mut inner = new_object();
        put_text(&mut inner, "data", self.data.as_str());
        put_text(&mut inner, "format", self.audio_format.as_str());
        put(&mut block, "input_audio", Json::Object(inner));
        one_block(block)
    }
}

// ---------------------------------------------------------------------------
// Files
// ---------------------------------------------------------------------------

/// A file: its data as a URI, its identifier, or its name.
#[derive(Debug, Clone)]
pub struct DSPyFile {
    pub file_data: Option<String>,
    pub file_id: Option<String>,
    pub filename: Option<String>,
}

/// The media type of a file with a lower-case extension.
pub open spec fn file_mime_of(ext: Seq<char>) -> Seq<char> {
    if ext == "pdf"@ {
        "application/pdf"@
    } else if ext == "txt"@ {
        "text/plain"@
    } else if ext == "csv"@ {
        "text/csv"@
    } else if ext == "json"@ {
        "application/json"@
    } else if ext == "xml"@ {
        "application/xml"@
    } else if ext == "html"@ {
        "text/html"@
    } else if ext == "md"@ {
        "text/markdown"@
    } else if ext == "png"@ {
        "image/png"@
    } else if ext == "jpg"@ || ext == "jpeg"@ {
        "image/jpeg"@
    } else {
        "application/octet-stream"@
    }
}

/// The media type of a file with a lower-case extension.
pub fn file_mime(ext: &str) -> (r: &'static str)
    ensures
        r@ == file_mime_of(ext@),
{
    if same(ext, "pdf") {
        "application/pdf"
    } else if same(ext, "txt") {
        "text/plain"
    } else if same(ext, "csv") {
        "text/csv"
    } else if same(ext, "json") {
        "application/json"
    } else if same(ext, "xml") {
        "application/xml"
    } else if same(ext, "html") {
        "text/html"
    } else if same(ext, "md") {
        "text/markdown"
    } else if same(ext, "png") {
        "image/png"
    } else if same(ext, "jpg") || same(ext, "jpeg") {
        "image/jpeg"
    } else {
        "application/octet-stream"
    }
}

/// An optional text, as a list entry under a key.
pub open spec fn insert_opt(m: BlockSpec, key: Seq<char>, value: Option<Seq<char>>) -> BlockSpec {
    match value {
        Some(t) => m.insert(key, JsonSpec::Text(t)),
        None => m,
    }
}

/// Puts a text under a key where there is one.
fn put_opt(m: &mut StrMap<Json>, key: &str, value: &Option<String>)
    ensures
        json_object(*final(m)) == insert_opt(json_object(*old(m)), key@, opt_view(*value)),
{
    match value {
        Some(t) => put_text(m, key, t.as_str()),
        None => {},
    }
}

/// What an optional borrowed text says.
pub open spec fn opt_str(s: Option<&str>) -> Option<Seq<char>> {
    match s {
        Some(t) => Some(t@),
        None => None,
    }
}

/// An owned copy of an optional text.
pub fn own(s: Option<&str>) -> (r: Option<String>)
    ensures
        opt_view(r) == opt_str(s),
{
    match s {
        Some(t) => Some(t.to_owned()),
        None => None,
    }
}

impl DSPyFile {
    /// A file with at least one of data, identifier and name.
    pub fn new(
        file_data: Option<String>,
        file_id: Option<String>,
        filename: Option<String>,
    ) -> (r: Self)
        requires
            file_data is Some || file_id is Some || filename is Some,
        ensures
            r.file_data == file_data,
            r.file_id == file_id,
            r.filename == filename,
    {
        DSPyFile { file_data, file_id, filename }
    }

    /// A file from bytes.
    pub fn from_bytes(bytes: &[u8], filename: Option<&str>, mime_type: &str) -> (r: Self)
        ensures
            opt_view(r.file_data) == Some(data_uri_of(mime_type@, base64_of(bytes@))),
            r.file_id is None,
            opt_view(r.filename) == opt_str(filename),
    {
        DSPyFile {
            file_data: Some(data_uri(mime_type, bytes)),
            file_id: None,
            filename: own(filename),
        }
    }

    /// A file from what was read at a path. The name and the media type that are
    /// given win over those of the path.
    pub fn from_file_contents(
        bytes: &[u8],
        path_name: Option<&str>,
        extension: &str,
        filename: Option<&str>,
        mime_type: Option<&str>,
    ) -> (r: Self)
        ensures
            opt_view(r.file_data) == Some(
                data_uri_of(
                    match mime_type {
                        Some(m) => m@,
                        None => file_mime_of(lower_of(extension@)),
                    },
                    base64_of(bytes@),
                ),
            ),
            r.file_id is None,
            opt_view(r.filename) == match filename {
                Some(f) => Some(f@),
                None => opt_str(path_name),
            },
    {
        let name = match filename {
            Some(f) => Some(f),
            None => path_name,
        };
        match mime_type {
            Some(m) => DSPyFile::from_bytes(bytes, name, m),
            None => {
                let ext = to_lowercase(extension);
                DSPyFile::from_bytes(bytes, name, file_mime(ext.as_str()))
            },
        }
    }

    /// A file that was uploaded.
    pub fn from_file_id(file_id: &str, filename: Option<String>) -> (r: Self)
        ensures
            r.file_data is None,
            opt_view(r.file_id) == Some(file_id@),
            r.filename == filename,
    {
        DSPyFile { file_data: None, file_id: Some(file_id.to_owned()), filename }
    }

    /// What the type is for.
    pub fn description() -> (r: String)
        ensures
            r@ == "A file input with data URI, file ID, or filename."@,
    {
        "A file input with data URI, file ID, or filename.".to_string()
    }

    /// The text that stands for the file.
    pub fn to_text(&self) -> (r: String)
        ensures
            r@ == serialized(self.formatted()),
    {
        self.serialize()
    }
}

impl AdapterType for DSPyFile {
    open spec fn formatted(&self) -> OutputSpec {
        OutputSpec::Blocks(
            seq![
                empty_object().insert("type"@, JsonSpec::Text("file"@)).insert(
                    "file"@,
                    JsonSpec::Object(
                        insert_opt(
                            insert_opt(
                                insert_opt(
                                    empty_object(),
                                    "file_data"@,
                                    opt_view(self.file_data),
                                ),
                                "file_id"@,
                                opt_view(self.file_id),
                            ),
                            "filename"@,
                            opt_view(self.filename),
                        ),
                    ),
                ),
            ],
        )
    }

    fn format(&self) -> (r: AdapterTypeOutput) {
        let mut block = new_object();
        put_text(&mut block, "type", "file");
        let mut inner = new_object();
        put_opt(&mut inner, "file_data", &self.file_data);
        put_opt(&mut inner, "file_id", &self.file_id);
        put_opt(&mut inner, "filename", &self.filename);
        put(&mut block, "file", Json::Object(inner));
        one_block(block)
    }
}

// ---------------------------------------------------------------------------
// Conversations
// ---------------------------------------------------------------------------

/// A conversation: one map of fields for each message.
#[derive(Debug)]
pub struct History {
    pub messages: Vec<StrMap<Json>>,
}

impl History {
    pub fn new(messages: Vec<StrMap<Json>>) -> (r: Self)
        ensures
            r.messages == messages,
    {
        History { messages }
    }

    /// The conversation as JSON text.
    pub fn to_text(&self) -> (r: String)
        ensures
            r@ == printed_json(blocks_json(block_list(self.messages@))),
    {
        blocks_to_json(&self.messages).to_text()
    }
}

// ---------------------------------------------------------------------------
// Code
// ---------------------------------------------------------------------------

/// Code in a language.
#[derive(Debug, Clone)]
pub struct Code {
    pub code: String,
    pub language: String,
}

/// The code in the first fenced block of a text, where the line of the opening
/// fence ends and the block is closed after it.
pub open spec fn fenced_lines(s: Seq<char>) -> Option<Seq<char>> {
    match find_first(s, "```"@) {
        None => None,
        Some(open) => match find_from(s, "\n"@, open + 3) {
            None => None,
            Some(line) => match find_from(s, "```"@, line + 1) {
                None => None,
                Some(close) => Some(s.subrange(line + 1, close)),
            },
        },
    }
}

/// What stands between the first two fences of a text.
pub open spec fn fenced_inline(s: Seq<char>) -> Option<Seq<char>> {
    match find_first(s, "```"@) {
        None => None,
        Some(open) => match find_from(s, "```"@, open + 3) {
            None => None,
            Some(close) => Some(s.subrange(open + 3, close)),
        },
    }
}

/// The code in a text: that of its first fenced block, or all of the text.
pub open spec fn code_in(s: Seq<char>) -> Seq<char> {
    match fenced_lines(s) {
        Some(c) => trim_of(c),
        None => match fenced_inline(s) {
            Some(c) => trim_of(c),
            None => s,
        },
    }
}

/// The code in a text: that of its first fenced block, or all of the text.
pub fn filter_code(code: &str) -> (r: String)
    ensures
        r@ == code_in(code@),
{
    proof {
        reveal_strlit("```");
        reveal_strlit("\n");
    }
    let v = chars_of(code);
    let n: usize = v.len();
    let fence = chars_of("```");
    let newline = chars_of("\n");
    match find_chars(&v, &fence, 0) {
        None => code.to_owned(),
        Some(open) => {
            match find_chars(&v, &newline, open + 3) {
                Some(line) => match find_chars(&v, &fence, line + 1) {
                    Some(close) => {
                        return trim(slice_text(&v, line + 1, close).as_str());
                    },
                    None => {},
                },
                None => {},
            }
            match find_chars(&v, &fence, open + 3) {
                Some(close) => trim(slice_text(&v, open + 3, close).as_str()),
                None => code.to_owned(),
            }
        },
    }
}

/// What the type `Code` is for, in a language.
pub open spec fn code_description(language: Seq<char>) -> Seq<char> {
    "Code represented in a string, specified in the `code` field. If this is an output field, the code field should follow the markdown code block format, e.g.\n```"@
        + lower_of(language) + "\n{code}\n```\nProgramming language: "@ + language
}

impl Code {
    /// The code in a text. Markdown fences around it are dropped.
    pub fn new(code: &str, language: &str) -> (r: Self)
        ensures
            r.code@ == code_in(code@),
            r.language@ == language@,
    {
        Code { code: filter_code(code), language: language.to_owned() }
    }

    /// What the type is for, in a language.
    pub fn description_with_language(language: &str) -> (r: String)
        ensures
            r@ == code_description(language@),
    {
        let mut r =
            "Code represented in a string, specified in the `code` field. If this is an output field, the code field should follow the markdown code block format, e.g.\n```".to_string();
        r.append(to_lowercase(language).as_str());
        r.append("\n{code}\n```\nProgramming language: ");
        r.append(language);
        r
    }

    /// What the type is for.
    pub fn description() -> (r: String)
        ensures
            r@ == code_description("python"@),
    {
        Code::description_with_language("python")
    }

    /// The code.
    pub fn to_text(&self) -> (r: String)
        ensures
            r@ == self.code@,
    {
        self.code.clone()
    }
}

impl AdapterType for Code {
    open spec fn formatted(&self) -> OutputSpec {
        OutputSpec::Text(self.code@)
    }

    fn format(&self) -> (r: AdapterTypeOutput) {
        AdapterTypeOutput::Text(self.code.clone())
    }
}

// ---------------------------------------------------------------------------
// Reasoning
// ---------------------------------------------------------------------------

/// The reasoning of a model.
#[derive(Debug, Clone)]
pub struct Reasoning {
    pub content: String,
}

impl Reasoning {
    pub fn new(content: &str) -> (r: Self)
        ensures
            r.content@ == content@,
    {
        Reasoning { content: content.to_owned() }
    }

    /// The length in bytes.
    pub fn len(&self) -> (n: usize)
        ensures
            n == byte_len_of(self.content@),
    {
        byte_len(self.content.as_str())
    }

    /// Whether there is nothing.
    pub fn is_empty(&self) -> (r: bool)
        ensures
            r == (self.content@.len() == 0),
    {
        self.content.as_str().is_empty()
    }

    /// Whether a text stands in it.
    pub fn contains(&self, s: &str) -> (r: bool)
        ensures
            r == has_text(self.content@, s@),
    {
        contains(self.content.as_str(), s)
    }

    /// The content without the white space around it.
    pub fn trim(&self) -> (r: String)
        ensures
            r@ == trim_of(self.content@),
    {
        trim(self.content.as_str())
    }

    /// The content in lower case: that of an ASCII text letter by letter.
    pub fn to_lowercase(&self) -> (r: String)
        ensures
            r@ == lower_of(self.content@),
            all_ascii(self.content@) ==> r@ == self.content@.map_values(
                |c: char| ascii_lower(c),
            ),
    {
        to_lowercase(self.content.as_str())
    }

    /// The content in upper case: that of an ASCII text letter by letter.
    pub fn to_uppercase(&self) -> (r: String)
        ensures
            r@ == upper_of(self.content@),
            all_ascii(self.content@) ==> r@ == self.content@.map_values(
                |c: char| ascii_upper(c),
            ),
    {
        to_uppercase(self.content.as_str())
    }

    /// The reasoning in a response, where it holds any.
    pub fn from_lm_response(response: &StrMap<Json>) -> (r: Option<Self>)
        ensures
            match member_text(JsonSpec::Object(json_object(*response)), "reasoning_content"@) {
                Some(t) => r matches Some(x) && x.content@ == t,
                None => r is None,
            },
    {
        proof {
            use_type_invariant(&*response);
            lemma_json_object(*response);
        }
        match response.get("reasoning_content") {
            Some(v) => match v.as_str() {
                Some(t) => Some(Reasoning::new(t)),
                None => None,
            },
            None => None,
        }
    }

    /// The content.
    pub fn to_text(&self) -> (r: String)
        ensures
            r@ == self.content@,
    {
        self.content.clone()
    }
}

impl Reasoning {
    /// What the type is for: nothing is said of that.
    pub fn description() -> (r: String)
        ensures
            r@ == Seq::<char>::empty(),
    {
        let r = String::new();
        proof {
            assert(r@ =~= Seq::<char>::empty());
        }
        r
    }
}

impl AdapterType for Reasoning {
    open spec fn formatted(&self) -> OutputSpec {
        OutputSpec::Text(self.content@)
    }

    fn format(&self) -> (r: AdapterTypeOutput) {
        AdapterTypeOutput::Text(self.content.clone())
    }
}

// ---------------------------------------------------------------------------
// Documents
// ---------------------------------------------------------------------------

/// The media types that a document can have.
#[derive(Debug, Clone, PartialEq, Eq, Structural)]
pub enum DocumentMediaType {
    TextPlain,
    ApplicationPdf,
}

impl DocumentMediaType {
    pub open spec fn name_of(self) -> Seq<char> {
        match self {
            DocumentMediaType::TextPlain => "text/plain"@,
            DocumentMediaType::ApplicationPdf => "application/pdf"@,
        }
    }

    /// The name of the media type.
    pub fn as_str(&self) -> (r: &'static str)
        ensures
            r@ == self.name_of(),
    {
        match self {
            DocumentMediaType::TextPlain => "text/plain",
            DocumentMediaType::ApplicationPdf => "application/pdf",
        }
    }
}

/// A document that a model can cite.
#[derive(Debug, Clone)]
pub struct Document {
    pub data: String,
    pub title: Option<String>,
    pub media_type: DocumentMediaType,
    pub context: Option<String>,
}

impl Document {
    /// A plain text document.
    pub fn new(data: &str) -> (r: Self)
        ensures
            r.data@ == data@,
            r.title is None,
            r.media_type == DocumentMediaType::TextPlain,
            r.context is None,
    {
        Document {
            data: data.to_owned(),
            title: None,
            media_type: DocumentMediaType::TextPlain,
            context: None,
        }
    }

    /// A document with all its fields.
    pub fn with_options(
        data: &str,
        title: Option<String>,
        media_type: DocumentMediaType,
        context: Option<String>,
    ) -> (r: Self)
        ensures
            r.data@ == data@,
            r.title == title,
            r.media_type == media_type,
            r.context == context,
    {
        Document { data: data.to_owned(), title, media_type, context }
    }

    /// What the type is for.
    pub fn description() -> (r: String)
        ensures
            r@
                == "A document containing text content that can be referenced and cited. Include the full text content and optionally a title for proper referencing."@,
    {
        "A document containing text content that can be referenced and cited. Include the full text content and optionally a title for proper referencing.".to_string()
    }

    /// A short text that names the document.
    pub fn to_text(&self) -> (r: String)
        ensures
            r@ == "Document("@ + (match opt_view(self.title) {
                Some(t) => "'"@ + t + "': "@,
                None => Seq::empty(),
            }) + dec_of(byte_len_of(self.data@)) + " chars)"@,
    {
        let title = match &self.title {
            Some(t) => {
                let mut p = "'".to_string();
                p.append(t.as_str());
                p.append("': ");
                p
            },
            None => String::new(),
        };
        let mut r = "Document(".to_string();
        r.append(title.as_str());
        r.append(dec_size(byte_len(self.data.as_str())).as_str());
        r.append(" chars)");
        r
    }
}

impl AdapterType for Document {
    open spec fn formatted(&self) -> OutputSpec {
        let source = empty_object().insert("type"@, JsonSpec::Text("text"@)).insert(
            "media_type"@,
            JsonSpec::Text(self.media_type.name_of()),
        ).insert("data"@, JsonSpec::Text(self.data@));
        let citations = empty_object().insert("enabled"@, JsonSpec::Bool(true));
        let block = empty_object().insert("type"@, JsonSpec::Text("document"@)).insert(
            "source"@,
            JsonSpec::Object(source),
        ).insert("citations"@, JsonSpec::Object(citations));
        OutputSpec::Blocks(
            seq![
                insert_opt(
                    insert_opt(block, "title"@, opt_view(self.title)),
                    "context"@,
                    opt_view(self.context),
                ),
            ],
        )
    }

    fn format(&self) -> (r: AdapterTypeOutput) {
        let mut source = new_object();
        put_text(&mut source, "type", "text");
        put_text(&mut source, "media_type", self.media_type.as_str());
        put_text(&mut source, "data", self.data.as_str());
        let mut citations = new_object();
        put(&mut citations, "enabled", Json::Bool(true));
        let mut block = new_object();
        put_text(&mut block, "type", "document");
        put(&mut block, "source", Json::Object(source));
        put(&mut block, "citations", Json::Object(citations));
        put_opt(&mut block, "title", &self.title);
        put_opt(&mut block, "context", &self.context);
        one_block(block)
    }
}

// ---------------------------------------------------------------------------
// Citations
// ---------------------------------------------------------------------------

/// What a citation says.
pub struct CitationSpec {
    pub citation_type: Seq<char>,
    pub cited_text: Seq<char>,
    pub document_index: usize,
    pub document_title: Option<Seq<char>>,
    pub start_char_index: usize,
    pub end_char_index: usize,
    pub supported_text: Option<Seq<char>>,
}

/// A passage that a model cites.
#[derive(Debug, Clone)]
pub struct Citation {
    pub citation_type: String,
    pub cited_text: String,
    pub document_index: usize,
    pub document_title: Option<String>,
    pub start_char_index: usize,
    pub end_char_index: usize,
    pub supported_text: Option<String>,
}

impl View for Citation {
    type V = CitationSpec;

    open spec fn view(&self) -> CitationSpec {
        CitationSpec {
            citation_type: self.citation_type@,
            cited_text: self.cited_text@,
            document_index: self.document_index,
            document_title: opt_view(self.document_title),
            start_char_index: self.start_char_index,
            end_char_index: self.end_char_index,
            supported_text: opt_view(self.supported_text),
        }
    }
}

/// What a citation says in JSON.
pub open spec fn citation_json(c: CitationSpec) -> BlockSpec {
    insert_opt(
        insert_opt(
            empty_object().insert("type"@, JsonSpec::Text(c.citation_type)).insert(
                "cited_text"@,
                JsonSpec::Text(c.cited_text),
            ).insert("document_index"@, JsonSpec::Int(c.document_index as int)).insert(
                "start_char_index"@,
                JsonSpec::Int(c.start_char_index as int),
            ).insert("end_char_index"@, JsonSpec::Int(c.end_char_index as int)),
            "document_title"@,
            c.document_title,
        ),
        "supported_text"@,
        c.supported_text,
    )
}

/// The machine word under a key, cut to its size as the machine does.
pub open spec fn member_size(j: JsonSpec, key: Seq<char>) -> Option<usize> {
    match member_of(j, key) {
        Some(v) => match nat_in(v) {
            Some(n) => Some((n as u64) as usize),
            None => None,
        },
        None => None,
    }
}

/// The citation that a JSON value describes: it needs a cited text and three
/// indices.
pub open spec fn citation_of(j: JsonSpec) -> Option<CitationSpec> {
    match (
        member_text(j, "cited_text"@),
        member_size(j, "document_index"@),
        member_size(j, "start_char_index"@),
        member_size(j, "end_char_index"@),
    ) {
        (
            Some(cited_text),
            Some(document_index),
            Some(start_char_index),
            Some(end_char_index),
        ) => Some(
            CitationSpec {
                citation_type: match member_text(j, "type"@) {
                    Some(t) => t,
                    None => "char_location"@,
                },
                cited_text,
                document_index,
                document_title: member_text(j, "document_title"@),
                start_char_index,
                end_char_index,
                supported_text: member_text(j, "supported_text"@),
            },
        ),
        _ => None,
    }
}

/// The citations that JSON values describe; a value that describes none is left
/// out.
pub open spec fn citations_of(items: Seq<JsonSpec>) -> Seq<CitationSpec>
    decreases items.len(),
{
    if items.len() == 0 {
        Seq::empty()
    } else {
        match citation_of(items.last()) {
            Some(c) => citations_of(items.drop_last()).push(c),
            None => citations_of(items.drop_last()),
        }
    }
}

/// What the citations of a list say.
pub open spec fn citation_list(v: Seq<Citation>) -> Seq<CitationSpec> {
    v.map_values(|c: Citation| c@)
}

impl Citation {
    /// A citation of a range of characters.
    pub fn new(
        cited_text: &str,
        document_index: usize,
        start_char_index: usize,
        end_char_index: usize,
    ) -> (r: Self)
        ensures
            r@ == (CitationSpec {
                citation_type: "char_location"@,
                cited_text: cited_text@,
                document_index,
                document_title: None,
                start_char_index,
                end_char_index,
                supported_text: None,
            }),
    {
        Citation {
            citation_type: "char_location".to_string(),
            cited_text: cited_text.to_owned(),
            document_index,
            document_title: None,
            start_char_index,
            end_char_index,
            supported_text: None,
        }
    }

    /// A citation with all its fields.
    pub fn with_options(
        citation_type: &str,
        cited_text: &str,
        document_index: usize,
        document_title: Option<String>,
        start_char_index: usize,
        end_char_index: usize,
        supported_text: Option<String>,
    ) -> (r: Self)
        ensures
            r@ == (CitationSpec {
                citation_type: citation_type@,
                cited_text: cited_text@,
                document_index,
                document_title: opt_view(document_title),
                start_char_index,
                end_char_index,
                supported_text: opt_view(supported_text),
            }),
    {
        Citation {
            citation_type: citation_type.to_owned(),
            cited_text: cited_text.to_owned(),
            document_index,
            document_title,
            start_char_index,
            end_char_index,
            supported_text,
        }
    }

    /// The citation as a content block.
    pub fn format(&self) -> (r: ContentBlock)
        ensures
            json_object(r) == citation_json(self@),
    {
        let mut m = new_object();
        put_text(&mut m, "type", self.citation_type.as_str());
        put_text(&mut m, "cited_text", self.cited_text.as_str());
        put(&mut m, "document_index", Json::Unsigned(self.document_index as u64));
        put(&mut m, "start_char_index", Json::Unsigned(self.start_char_index as u64));
        put(&mut m, "end_char_index", Json::Unsigned(self.end_char_index as u64));
        put_opt(&mut m, "document_title", &self.document_title);
        put_opt(&mut m, "supported_text", &self.supported_text);
        m
    }

    /// The citation that a JSON value describes.
    pub fn from_json(v: &Json) -> (r: Option<Citation>)
        ensures
            match citation_of(v@) {
                Some(c) => r matches Some(x) && x@ == c,
                None => r is None,
            },
    {
        let cited_text = match v.get_str("cited_text") {
            Some(t) => t.to_owned(),
            None => {
                return None;
            },
        };
        let document_index: usize = match size_of_member(v, "document_index") {
            Some(n) => n,
            None => {
                return None;
            },
        };
        let start_char_index: usize = match size_of_member(v, "start_char_index") {
            Some(n) => n,
            None => {
                return None;
            },
        };
        let end_char_index: usize = match size_of_member(v, "end_char_index") {
            Some(n) => n,
            None => {
                return None;
            },
        };
        let citation_type = match v.get_str("type") {
            Some(t) => t.to_owned(),
            None => "char_location".to_string(),
        };
        Some(
            Citation {
                citation_type,
                cited_text,
                document_index,
                document_title: own(v.get_str("document_title")),
                start_char_index,
                end_char_index,
                supported_text: own(v.get_str("supported_text")),
            },
        )
    }
}

fn size_of_member(v: &Json, key: &str) -> (r: Option<usize>)
    ensures
        r == member_size(v@, key@),
{
    match v.get(key) {
        Some(x) => match x.as_u64() {
            Some(n) => Some(n as usize),
            None => None,
        },
        None => None,
    }
}

/// The citations of a response.
#[derive(Debug, Clone)]
pub struct Citations {
    pub citations: Vec<Citation>,
}

impl Citations {
    pub fn new(citations: Vec<Citation>) -> (r: Self)
        ensures
            r.citations == citations,
    {
        Citations { citations }
    }

    /// The citations that JSON values describe; a value that describes none is
    /// left out.
    pub fn from_json_list(dicts: &Vec<Json>) -> (r: Self)
        ensures
            citation_list(r.citations@) == citations_of(json_list(dicts@)),
    {
        let ghost all = json_list(dicts@);
        let mut citations: Vec<Citation> = Vec::new();
        let mut i: usize = 0;
        proof {
            lemma_json_list(dicts@);
            assert(all.take(0) =~= Seq::<JsonSpec>::empty());
            assert(citation_list(citations@) =~= Seq::<CitationSpec>::empty());
        }
        while i < dicts.len()
            invariant
                i <= dicts.len(),
                all == json_list(dicts@),
                all.len() == dicts@.len(),
                forall|k: int| 0 <= k < dicts@.len() ==> #[trigger] all[k] == dicts@[k]@,
                citation_list(citations@) == citations_of(all.take(i as int)),
            decreases dicts.len() - i,
        {
            proof {
                assert(all.take(i + 1).drop_last() =~= all.take(i as int));
                assert(all.take(i + 1).last() == dicts@[i as int]@);
            }
            match Citation::from_json(&dicts[i]) {
                Some(c) => {
                    let ghost before = citations@;
                    citations.push(c);
                    proof {
                        assert(citation_list(citations@) =~= citation_list(before).push(c@));
                    }
                },
                None => {},
            }
            i = i + 1;
        }
        proof {
            assert(all.take(i as int) =~= all);
        }
        Citations { citations }
    }

    /// The citations in a response, where it holds a list of them.
    pub fn parse_lm_response(response: &StrMap<Json>) -> (r: Option<Self>)
        ensures
            match member_of(JsonSpec::Object(json_object(*response)), "citations"@) {
                Some(JsonSpec::Array(items)) => r matches Some(c) && citation_list(c.citations@)
                    == citations_of(items),
                _ => r is None,
            },
    {
        proof {
            use_type_invariant(&*response);
            lemma_json_object(*response);
        }
        match response.get("citations") {
            Some(v) => match v.as_array() {
                Some(items) => Some(Citations::from_json_list(items)),
                None => None,
            },
            None => None,
        }
    }

    /// How many there are.
    pub fn len(&self) -> (n: usize)
        ensures
            n == self.citations@.len(),
    {
        self.citations.len()
    }

    /// Whether there is none.
    pub fn is_empty(&self) -> (r: bool)
        ensures
            r == (self.citations@.len() == 0),
    {
        self.citations.len() == 0
    }

    /// The citations in order.
    pub fn iter(&self) -> (r: std::slice::Iter<'_, Citation>)
        ensures
            vstd::std_specs::iter::IteratorSpec::remaining(&r) == self.citations@.as_ref(),
    {
        self.citations.iter()
    }

    /// What the type is for.
    pub fn description() -> (r: String)
        ensures
            r@
                == "Citations with quoted text and source references. Include the exact text being cited and information about its source."@,
    {
        "Citations with quoted text and source references. Include the exact text being cited and information about its source.".to_string()
    }

    /// A short text that says how many there are.
    pub fn to_text(&self) -> (r: String)
        ensures
            r@ == citations_text(self.citations@.len()),
    {
        let mut r = "Citations(".to_string();
        r.append(dec_size(self.citations.len()).as_str());
        r.append(" citations)");
        r
    }
}

/// The short text for a number of citations.
pub open spec fn citations_text(n: nat) -> Seq<char> {
    "Citations("@ + dec_of(n) + " citations)"@
}

impl AdapterType for Citations {
    open spec fn formatted(&self) -> OutputSpec {
        OutputSpec::Blocks(self.citations@.map_values(|c: Citation| citation_json(c@)))
    }

    fn format(&self) -> (r: AdapterTypeOutput) {
        let ghost want = self.citations@.map_values(|c: Citation| citation_json(c@));
        let mut blocks: Vec<ContentBlock> = Vec::new();
        let mut i: usize = 0;
        proof {
            assert(block_list(blocks@) =~= want.take(0));
        }
        while i < self.citations.len()
            invariant
                i <= self.citations.len(),
                want == self.citations@.map_values(|c: Citation| citation_json(c@)),
                block_list(blocks@) == want.take(i as int),
            decreases self.citations.len() - i,
        {
            proof {
                assert(want.take(i + 1) =~= want.take(i as int).push(want[i as int]));
            }
            push_block(&mut blocks, self.citations[i].format());
            i = i + 1;
        }
        proof {
            assert(want.take(i as int) =~= want);
        }
        AdapterTypeOutput::Blocks(blocks)
    }
}

// ---------------------------------------------------------------------------
// Messages
// ---------------------------------------------------------------------------

/// What a message holds.
pub enum ContentSpec {
    Text(Seq<char>),
    Blocks(Seq<BlockSpec>),
}

/// What a message holds: plain text or content blocks.
#[derive(Debug)]
pub enum MessageContent {
    Text(String),
    Blocks(Vec<ContentBlock>),
}

impl View for MessageContent {
    type V = ContentSpec;

    open spec fn view(&self) -> ContentSpec {
        match self {
            MessageContent::Text(s) => ContentSpec::Text(s@),
            MessageContent::Blocks(v) => ContentSpec::Blocks(block_list(v@)),
        }
    }
}

/// What a message with a role says.
pub struct TypedMessageSpec {
    pub role: Seq<char>,
    pub content: ContentSpec,
}

/// A message with a role.
#[derive(Debug)]
pub struct TypedMessage {
    pub role: String,
    pub content: MessageContent,
}

impl View for TypedMessage {
    type V = TypedMessageSpec;

    open spec fn view(&self) -> TypedMessageSpec {
        TypedMessageSpec { role: self.role@, content: self.content@ }
    }
}

/// A block of plain text.
pub open spec fn text_block_of(s: Seq<char>) -> BlockSpec {
    empty_object().insert("type"@, JsonSpec::Text("text"@)).insert("text"@, JsonSpec::Text(s))
}

/// The objects among JSON values.
pub open spec fn objects_of(items: Seq<JsonSpec>) -> Seq<BlockSpec>
    decreases items.len(),
{
    if items.len() == 0 {
        Seq::empty()
    } else {
        match items.last() {
            JsonSpec::Object(m) => objects_of(items.drop_last()).push(m),
            _ => objects_of(items.drop_last()),
        }
    }
}

/// The blocks that a serialized value stands for: the objects of a JSON array, or
/// else the text itself.
pub open spec fn custom_blocks(content: Seq<char>) -> Seq<BlockSpec> {
    match parsed_json(content) {
        Ok(JsonSpec::Array(items)) => objects_of(items),
        _ => seq![text_block_of(content)],
    }
}

/// Where the next serialized value starts and where its content ends.
pub open spec fn next_custom(t: Seq<char>, from: int) -> Option<(int, int)> {
    match find_from(t, CUSTOM_TYPE_START@, from) {
        None => None,
        Some(p) => match find_from(t, CUSTOM_TYPE_END@, p + CUSTOM_TYPE_START@.len()) {
            None => None,
            Some(q) => Some((p, q)),
        },
    }
}

/// The text `t[from..to]` as a block, where it is not empty.
pub open spec fn text_part(t: Seq<char>, from: int, to: int) -> Seq<BlockSpec> {
    if from < to {
        seq![text_block_of(t.subrange(from, to))]
    } else {
        Seq::empty()
    }
}

/// The blocks of `t[from..]`: the serialized values, and the text around them.
pub open spec fn split_blocks(t: Seq<char>, from: int) -> Seq<BlockSpec>
    decreases t.len() - from,
{
    match next_custom(t, from) {
        None => text_part(t, from, t.len() as int),
        Some((p, q)) => if from <= p && p < q && q + CUSTOM_TYPE_END@.len() <= t.len() {
            text_part(t, from, p) + custom_blocks(
                trim_of(t.subrange(p + CUSTOM_TYPE_START@.len(), q)),
            ) + split_blocks(t, q + CUSTOM_TYPE_END@.len())
        } else {
            Seq::empty()
        },
    }
}

/// A message with the serialized values in it taken apart. Only the text of a
/// user message that holds such a value changes.
pub open spec fn split_message(m: TypedMessageSpec) -> TypedMessageSpec {
    match m.content {
        ContentSpec::Text(t) => if m.role == "user"@ && next_custom(t, 0) is Some {
            TypedMessageSpec { role: m.role, content: ContentSpec::Blocks(split_blocks(t, 0)) }
        } else {
            m
        },
        ContentSpec::Blocks(_) => m,
    }
}

fn text_block(s: &str) -> (r: ContentBlock)
    ensures
        json_object(r) == text_block_of(s@),
{
    let mut block = new_object();
    put_text(&mut block, "type", "text");
    put_text(&mut block, "text", s);
    block
}

/// Appends the blocks that a serialized value stands for.
fn push_custom(out: &mut Vec<ContentBlock>, content: &str)
    ensures
        block_list(final(out)@) == block_list(old(out)@) + custom_blocks(content@),
{
    let ghost before = block_list(out@);
    match Json::parse(content) {
        Ok(Json::Array(items)) => {
            let ghost all = json_list(items@);
            let mut i: usize = 0;
            proof {
                lemma_json_list(items@);
                assert(all.take(0) =~= Seq::<JsonSpec>::empty());
                assert(before + objects_of(all.take(0)) =~= before);
            }
            while i < items.len()
                invariant
                    i <= items.len(),
                    all == json_list(items@),
                    all.len() == items@.len(),
                    forall|k: int| 0 <= k < items@.len() ==> #[trigger] all[k] == items@[k]@,
                    block_list(out@) == before + objects_of(all.take(i as int)),
                decreases items.len() - i,
            {
                proof {
                    assert(all.take(i + 1).drop_last() =~= all.take(i as int));
                    assert(all.take(i + 1).last() == items@[i as int]@);
                }
                match &items[i] {
                    Json::Object(m) => {
                        proof {
                            let front = objects_of(all.take(i as int));
                            assert((before + front).push(json_object(*m)) =~= before + front.push(
                                json_object(*m),
                            ));
                        }
                        push_block(out, copy_object(m));
                    },
                    _ => {},
                }
                i = i + 1;
            }
            proof {
                assert(all.take(i as int) =~= all);
            }
        },
        _ => {
            push_block(out, text_block(content));
            proof {
                assert(before.push(text_block_of(content@)) =~= before + seq![
                    text_block_of(content@),
                ]);
            }
        },
    }
}

/// Appends `v[from..to]` as a block of text, where it is not empty.
fn push_part(out: &mut Vec<ContentBlock>, v: &Vec<char>, from: usize, to: usize)
    requires
        to <= v@.len(),
    ensures
        block_list(final(out)@) == block_list(old(out)@) + text_part(v@, from as int, to as int),
{
    let ghost before = block_list(out@);
    if from < to {
        push_block(out, text_block(slice_text(v, from, to).as_str()));
        proof {
            let b = text_block_of(v@.subrange(from as int, to as int));
            assert(before.push(b) =~= before + seq![b]);
        }
    } else {
        proof {
            assert(before + Seq::<BlockSpec>::empty() =~= before);
        }
    }
}

/// The blocks of a text that holds a serialized value, or nothing where it holds
/// none.
pub fn split_text(text: &str) -> (r: Option<Vec<ContentBlock>>)
    ensures
        r is Some <==> next_custom(text@, 0) is Some,
        r matches Some(v) ==> block_list(v@) == split_blocks(text@, 0),
{
    let v = chars_of(text);
    let n: usize = v.len();
    let start = chars_of(CUSTOM_TYPE_START);
    let end = chars_of(CUSTOM_TYPE_END);
    let mut out: Vec<ContentBlock> = Vec::new();
    let mut from: usize = 0;
    let mut found = false;
    proof {
        reveal_strlit("<<CUSTOM-TYPE-START-IDENTIFIER>>");
        reveal_strlit("<<CUSTOM-TYPE-END-IDENTIFIER>>");
        assert(block_list(out@) =~= Seq::<BlockSpec>::empty());
        assert(block_list(out@) + split_blocks(text@, 0) =~= split_blocks(text@, 0));
    }
    loop
        invariant
            v@ == text@,
            n == v.len(),
            start@ == CUSTOM_TYPE_START@,
            end@ == CUSTOM_TYPE_END@,
            start@.len() == 32,
            end@.len() == 30,
            from <= n,
            !found ==> from == 0,
            found ==> next_custom(text@, 0) is Some,
            split_blocks(text@, 0) == block_list(out@) + split_blocks(text@, from as int),
        decreases n - from,
    {
        let p: usize = match find_chars(&v, &start, from) {
            Some(p) => p,
            None => {
                if !found {
                    return None;
                }
                push_part(&mut out, &v, from, n);
                return Some(out);
            },
        };
        let q: usize = match find_chars(&v, &end, p + start.len()) {
            Some(q) => q,
            None => {
                if !found {
                    return None;
                }
                push_part(&mut out, &v, from, n);
                return Some(out);
            },
        };
        let ghost done = block_list(out@);
        let ghost rest = split_blocks(text@, q + end@.len());
        let content = trim(slice_text(&v, p + start.len(), q).as_str());
        push_part(&mut out, &v, from, p);
        push_custom(&mut out, content.as_str());
        proof {
            let a = text_part(text@, from as int, p as int);
            let b = custom_blocks(content@);
            assert(split_blocks(text@, from as int) == a + b + rest);
            assert(done + (a + b + rest) =~= done + a + b + rest);
        }
        found = true;
        from = q + end.len();
    }
}

/// Takes the serialized values in user messages apart into content blocks.
pub fn split_message_content_for_custom_types(messages: &mut Vec<TypedMessage>)
    ensures
        final(messages)@.len() == old(messages)@.len(),
        forall|i: int|
            0 <= i < old(messages)@.len() ==> (#[trigger] final(messages)@[i])@ == split_message(
                old(messages)@[i]@,
            ),
{
    let ghost before = messages@;
    let mut i: usize = 0;
    while i < messages.len()
        invariant
            i <= messages.len(),
            messages@.len() == before.len(),
            forall|k: int| 0 <= k < i ==> (#[trigger] messages@[k])@ == split_message(before[k]@),
            forall|k: int| i <= k < before.len() ==> messages@[k] == before[k],
        decreases messages.len() - i,
    {
        let split = if same(messages[i].role.as_str(), "user") {
            match &messages[i].content {
                MessageContent::Text(t) => split_text(t.as_str()),
                MessageContent::Blocks(_) => None,
            }
        } else {
            None
        };
        match split {
            Some(blocks) => {
                let role = messages[i].role.clone();
                messages.set(i, TypedMessage { role, content: MessageContent::Blocks(blocks) });
            },
            None => {},
        }
        i = i + 1;
    }
}

proof fn lemma_objects_of_blocks(blocks: Seq<BlockSpec>)
    ensures
        objects_of(blocks.map_values(|m: BlockSpec| JsonSpec::Object(m))) == blocks,
    decreases blocks.len(),
{
    let items = blocks.map_values(|m: BlockSpec| JsonSpec::Object(m));
    if blocks.len() > 0 {
        assert(items.drop_last() =~= blocks.drop_last().map_values(
            |m: BlockSpec| JsonSpec::Object(m),
        ));
        lemma_objects_of_blocks(blocks.drop_last());
        assert(blocks.drop_last().push(blocks.last()) =~= blocks);
    } else {
        assert(objects_of(items) =~= blocks);
    }
}

/// Taking apart a user message that is a serialized value gives back the blocks
/// that were serialized. The printed value may not itself hold the closing
/// marker, nor nest deeper than what can be read.
pub proof fn law_split_undoes_serialize(blocks: Seq<BlockSpec>)
    requires
        !has_text(printed_json(blocks_json(blocks)), CUSTOM_TYPE_END@),
        prints_back(OutputSpec::Blocks(blocks)),
        nests_within(blocks_json(blocks), 127),
    ensures
        split_message(
            TypedMessageSpec {
                role: "user"@,
                content: ContentSpec::Text(serialized(OutputSpec::Blocks(blocks))),
            },
        ).content == ContentSpec::Blocks(blocks),
{
    reveal_strlit("<<CUSTOM-TYPE-START-IDENTIFIER>>");
    reveal_strlit("<<CUSTOM-TYPE-END-IDENTIFIER>>");
    let open = CUSTOM_TYPE_START@;
    let close = CUSTOM_TYPE_END@;
    let body = printed_json(blocks_json(blocks));
    let t = open + body + close;
    assert(open.len() == 32 && close.len() == 30);
    assert(occurs_at(t, open, 0)) by {
        assert(t.subrange(0, 32) =~= open);
    }
    assert(find_from(t, open, 0) == Some(0int));
    let q: int = 32 + body.len() as int;
    assert(occurs_at(t, close, q)) by {
        assert(t.subrange(q, q + 30) =~= close);
    }
    assert forall|j: int| 32 <= j < q implies !occurs_at(t, close, j) by {
        if occurs_at(t, close, j) {
            lemma_marker_overlap(t, body, j);
        }
    }
    crate::text::lemma_find_is(t, close, 32, q);
    assert(next_custom(t, 0) == Some((0int, q)));
    assert(t.subrange(32, q) =~= body);
    lemma_objects_of_blocks(blocks);
    assert(t.len() == q + 30);
    assert(next_custom(t, q + 30) is None);
    assert(split_blocks(t, q + 30) =~= Seq::<BlockSpec>::empty());
    assert(text_part(t, 0, 0) =~= Seq::<BlockSpec>::empty());
    assert(split_blocks(t, 0) =~= blocks);
}

/// Only the first two characters of the closing marker are opening brackets.
proof fn lemma_end_marker_chars(d: int)
    requires
        2 <= d < 30,
    ensures
        CUSTOM_TYPE_END@[d] != '<',
        CUSTOM_TYPE_END@[2] != '<',
        CUSTOM_TYPE_END@[1] == '<',
        CUSTOM_TYPE_END@[0] == '<',
{
    reveal_strlit("<<CUSTOM-TYPE-END-IDENTIFIER>>");
    let s = CUSTOM_TYPE_END@;
    assert(s[0] == '<');
    assert(s[1] == '<');
    assert(s[2] == 'C');
    assert(s[3] == 'U');
    assert(s[4] == 'S');
    assert(s[5] == 'T');
    assert(s[6] == 'O');
    assert(s[7] == 'M');
    assert(s[8] == '-');
    assert(s[9] == 'T');
    assert(s[10] == 'Y');
    assert(s[11] == 'P');
    assert(s[12] == 'E');
    assert(s[13] == '-');
    assert(s[14] == 'E');
    assert(s[15] == 'N');
    assert(s[16] == 'D');
    assert(s[17] == '-');
    assert(s[18] == 'I');
    assert(s[19] == 'D');
    assert(s[20] == 'E');
    assert(s[21] == 'N');
    assert(s[22] == 'T');
    assert(s[23] == 'I');
    assert(s[24] == 'F');
    assert(s[25] == 'I');
    assert(s[26] == 'E');
    assert(s[27] == 'R');
    assert(s[28] == '>');
    assert(s[29] == '>');
    if d < 9 {
    } else if d < 16 {
    } else if d < 23 {
    } else {
    }
}

/// The closing marker cannot stand in a serialized value before its place, unless
/// the printed value holds it: it overlaps itself nowhere.
proof fn lemma_marker_overlap(t: Seq<char>, body: Seq<char>, j: int)
    requires
        t == CUSTOM_TYPE_START@ + body + CUSTOM_TYPE_END@,
        32 <= j < 32 + body.len(),
        occurs_at(t, CUSTOM_TYPE_END@, j),
        CUSTOM_TYPE_START@.len() == 32,
        CUSTOM_TYPE_END@.len() == 30,
    ensures
        has_text(body, CUSTOM_TYPE_END@),
{
    let close = CUSTOM_TYPE_END@;
    let q: int = 32 + body.len() as int;
    let s = t.subrange(j, j + 30);
    assert(s == close);
    if j + 30 <= q {
        assert(body.subrange(j - 32, j - 32 + 30) =~= s);
        assert(occurs_at(body, close, j - 32));
        crate::text::lemma_find_from(body, close, 0);
    } else {
        // The marker would start again inside itself.
        let d = q - j;
        assert(0 < d < 30);
        assert(s[d] == t[q]);
        assert(t[q] == close[0]);
        if d >= 2 {
            lemma_end_marker_chars(d);
        } else {
            lemma_end_marker_chars(2);
            assert(s[2] == t[q + 1]);
            assert(t[q + 1] == close[1]);
        }
        assert(false);
    }
}

/// A citation is read back from the block that it makes.
pub proof fn law_citation_is_read_back(c: CitationSpec)
    ensures
        citation_of(JsonSpec::Object(citation_json(c))) == Some(c),
{
    reveal_strlit("type");
    reveal_strlit("cited_text");
    reveal_strlit("document_index");
    reveal_strlit("start_char_index");
    reveal_strlit("end_char_index");
    reveal_strlit("document_title");
    reveal_strlit("supported_text");
    assert("type"@.len() == 4 && "cited_text"@.len() == 10 && "document_index"@.len() == 14
        && "start_char_index"@.len() == 16 && "end_char_index"@.len() == 14
        && "document_title"@.len() == 14 && "supported_text"@.len() == 14);
    assert("document_index"@[0] == 'd' && "end_char_index"@[0] == 'e' && "document_title"@[0]
        == 'd' && "supported_text"@[0] == 's');
    assert("document_index"@[9] == 'i' && "document_title"@[9] == 't');
    let j = JsonSpec::Object(citation_json(c));
    assert(member_of(j, "type"@) == Some(JsonSpec::Text(c.citation_type)));
    assert(member_of(j, "cited_text"@) == Some(JsonSpec::Text(c.cited_text)));
    assert(member_of(j, "document_index"@) == Some(JsonSpec::Int(c.document_index as int)));
    assert(member_of(j, "start_char_index"@) == Some(JsonSpec::Int(c.start_char_index as int)));
    assert(member_of(j, "end_char_index"@) == Some(JsonSpec::Int(c.end_char_index as int)));
    assert(member_text(j, "document_title"@) == c.document_title);
    assert(member_text(j, "supported_text"@) == c.supported_text);
}

} // verus!
