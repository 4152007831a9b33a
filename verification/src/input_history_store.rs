//! The history of inputs as it is kept on disk: one JSON string on each line, one file for
//! each workspace.
use crate::history;
use crate::text;
use sha2::Digest;
use vstd::prelude::*;

verus! {

/// The SHA-256 digest of some bytes.
pub uninterp spec fn sha256(bytes: Seq<u8>) -> Seq<u8>;

/// `sha2::Sha256::digest`: 32 bytes that go by the given ones alone.
#[verifier::external_body]
fn digest(bytes: &Vec<u8>) -> (r: Vec<u8>)
    ensures
        r@ == sha256(bytes@),
        r@.len() == 32,
{
    sha2::Sha256::digest(bytes).to_vec()
}

/// A hexadecimal digit.
pub open spec fn hex_digit(d: int) -> char {
    if d < 10 {
        (0x30 + d) as u8 as char
    } else {
        (0x57 + d) as u8 as char
    }
}

fn hex_char(d: u8) -> (r: char)
    requires
        d < 16,
    ensures
        r == hex_digit(d as int),
{
    if d < 10 {
        (0x30 + d) as char
    } else {
        (0x57 + d) as char
    }
}

/// Some bytes, each in two hexadecimal digits.
pub open spec fn hex(bytes: Seq<u8>) -> Seq<char>
    decreases bytes.len(),
{
    if bytes.len() == 0 {
        Seq::empty()
    } else {
        hex(bytes.drop_last()).push(hex_digit(bytes.last() as int / 16)).push(
            hex_digit(bytes.last() as int % 16),
        )
    }
}

/// Writes the first bytes of a digest in hexadecimal digits.
pub fn short_hash(digest: &Vec<u8>) -> (r: String)
    requires
        digest@.len() >= 16,
    ensures
        r@ == hex(digest@.take(16)),
{
    let mut r = String::new();
    let mut i: usize = 0;
    proof {
        assert(digest@.take(0) =~= Seq::empty());
        assert(r@ =~= Seq::empty());
    }
    while i < 16
        invariant
            i <= 16,
            digest@.len() >= 16,
            r@ == hex(digest@.take(i as int)),
        decreases 16 - i,
    {
        let b = digest[i];
        proof {
            assert(digest@.take(i + 1).drop_last() =~= digest@.take(i as int));
        }
        r.push(hex_char(b / 16));
        r.push(hex_char(b % 16));
        i = i + 1;
    }
    r
}

/// What the name of a workspace is put behind before it is hashed.
pub open spec fn hash_domain() -> Seq<u8> {
    seq![
        109u8, 101, 114, 114, 121, 45, 105, 110, 112, 117, 116, 45, 104, 105, 115, 116, 111, 114,
        121, 45, 118, 49, 0,
    ]
}

/// The name that the files of a workspace have.
pub open spec fn workspace_name(workspace: Seq<u8>) -> Seq<char> {
    hex(sha256(hash_domain() + workspace).take(16))
}

fn workspace_hash(workspace: &Vec<u8>) -> (r: String)
    ensures
        r@ == workspace_name(workspace@),
{
    let mut bytes: Vec<u8> = vec![
        109u8, 101, 114, 114, 121, 45, 105, 110, 112, 117, 116, 45, 104, 105, 115, 116, 111, 114,
        121, 45, 118, 49, 0,
    ];
    proof {
        assert(bytes@ =~= hash_domain());
    }
    let mut i: usize = 0;
    while i < workspace.len()
        invariant
            i <= workspace@.len(),
            bytes@ == hash_domain() + workspace@.take(i as int),
        decreases workspace@.len() - i,
    {
        bytes.push(workspace[i]);
        proof {
            assert(hash_domain() + workspace@.take(i + 1) =~= (hash_domain() + workspace@.take(
                i as int,
            )).push(workspace@[i as int]));
        }
        i = i + 1;
    }
    proof {
        assert(workspace@.take(i as int) =~= workspace@);
    }
    short_hash(&digest(&bytes))
}

/// A path with one more part.
pub open spec fn joined(directory: Seq<char>, name: Seq<char>) -> Seq<char> {
    if directory.len() == 0 || directory.last() == '/' {
        directory + name
    } else {
        directory + "/"@ + name
    }
}

fn join_path(directory: &str, name: &str) -> (r: String)
    ensures
        r@ == joined(directory@, name@),
{
    let v = text::chars_of(directory);
    if v.len() == 0 || v[v.len() - 1] == '/' {
        text::cat2(directory, name)
    } else {
        text::cat3(directory, "/", name)
    }
}

/// Where the history of a workspace is kept, and what locks it.
#[derive(Debug, Clone, PartialEq, Eq)]
pub struct InputHistoryStore {
    path: String,
    lock_path: String,
}

/// Where the history of a workspace is kept, and what locks it.
pub struct StoreView {
    pub path: Seq<char>,
    pub lock_path: Seq<char>,
}

impl View for InputHistoryStore {
    type V = StoreView;

    closed spec fn view(&self) -> StoreView {
        StoreView { path: self.path@, lock_path: self.lock_path@ }
    }
}

pub open spec fn store_of(state_dir: Seq<char>, workspace: Seq<u8>) -> StoreView {
    let directory = joined(state_dir, "input-history"@);
    StoreView {
        path: joined(directory, workspace_name(workspace) + ".jsonl"@),
        lock_path: joined(directory, workspace_name(workspace) + ".lock"@),
    }
}

impl InputHistoryStore {
    /// The store of a workspace; `workspace_root` are the bytes of its path.
    pub fn for_workspace(state_dir: &str, workspace_root: &Vec<u8>) -> (r: InputHistoryStore)
        ensures
            r@ == store_of(state_dir@, workspace_root@),
    {
        let hash = workspace_hash(workspace_root);
        let directory = join_path(state_dir, "input-history");
        InputHistoryStore {
            path: join_path(
                directory.as_str(),
                text::cat2(hash.as_str(), ".jsonl").as_str(),
            ),
            lock_path: join_path(
                directory.as_str(),
                text::cat2(hash.as_str(), ".lock").as_str(),
            ),
        }
    }

    pub fn path(&self) -> (r: &str)
        ensures
            r@ == self@.path,
    {
        self.path.as_str()
    }

    pub fn lock_path(&self) -> (r: &str)
        ensures
            r@ == self@.lock_path,
    {
        self.lock_path.as_str()
    }

    /// The name of a file that is written before it takes the place of another.
    pub fn temporary_name(file_name: &str, process: u32, counter: u64) -> (r: String)
        ensures
            r@ == "."@ + file_name@ + ".tmp-"@ + text::decimal(process as nat) + "-"@
                + text::decimal(counter as nat),
    {
        text::cat6(
            ".",
            file_name,
            ".tmp-",
            text::decimal_text(process as u64).as_str(),
            "-",
            text::decimal_text(counter).as_str(),
        )
    }
}

/// The text that some bytes hold as a JSON string; none where they do not.
pub uninterp spec fn json_string(bytes: Seq<u8>) -> Option<Seq<char>>;

/// `serde_json::from_slice` into a `String`: the text, where the bytes hold one and nothing
/// but blanks beside it. It goes by the bytes alone.
#[verifier::external_body]
fn read_string(bytes: &Vec<u8>) -> (r: Option<String>)
    ensures
        (match r {
            Some(s) => Some(s@),
            None => None,
        }) == json_string(bytes@),
{
    serde_json::from_slice::<String>(bytes).ok()
}

/// `serde_json::to_vec` of a text, which cannot fail: a JSON string that begins with a quote,
/// holds no control character, and is read back as the text, a line break behind it or not.
#[verifier::external_body]
fn write_string(s: &str) -> (r: Vec<u8>)
    ensures
        r@.len() > 0 && r@[0] == 0x22,
        forall|i: int| 0 <= i < r@.len() ==> #[trigger] r@[i] >= 0x20,
        json_string(r@) == Some(s@),
        json_string(r@.push(0x0a)) == Some(s@),
{
    serde_json::to_vec(s).expect("a text can always be written")
}

/// The lines of a file, each with the line break at its end if it has one.
pub open spec fn byte_lines(s: Seq<u8>) -> Seq<Seq<u8>>
    decreases s.len(),
{
    if s.len() == 0 {
        Seq::empty()
    } else {
        let init = byte_lines(s.drop_last());
        if s.len() == 1 || s[s.len() - 2] == 0x0a {
            init.push(seq![s.last()])
        } else {
            init.drop_last().push(init.last().push(s.last()))
        }
    }
}

/// Bytes without a line break, behind an ended line, make the next line.
proof fn lemma_next_line(s: Seq<u8>, line: Seq<u8>)
    requires
        s.len() == 0 || s.last() == 0x0a,
        line.len() > 0,
        forall|i: int| 0 <= i < line.len() - 1 ==> #[trigger] line[i] != 0x0a,
    ensures
        byte_lines(s + line) == byte_lines(s).push(line),
    decreases line.len(),
{
    let whole = s + line;
    let init = line.drop_last();
    assert(whole.drop_last() =~= s + init);
    if line.len() == 1 {
        assert(s + init =~= s);
        assert(line =~= seq![whole.last()]);
    } else {
        lemma_next_line(s, init);
        assert(whole[whole.len() - 2] == line[line.len() - 2]);
        assert(byte_lines(s).push(init).drop_last() =~= byte_lines(s));
        assert(init.push(line.last()) =~= line);
    }
}

/// A line of nothing but blanks.
pub open spec fn blank_line(line: Seq<u8>) -> bool {
    forall|i: int| 0 <= i < line.len() ==> is_blank_byte(#[trigger] line[i])
}

pub open spec fn is_blank_byte(b: u8) -> bool {
    b == 0x20 || b == 0x09 || b == 0x0a || b == 0x0c || b == 0x0d
}

/// What a line of the file is.
#[derive(Debug, PartialEq, Eq)]
pub enum HistoryLine {
    Blank,
    /// No JSON string.
    Invalid,
    Entry(String),
}

/// What a line of the file is.
pub enum HistoryLineView {
    Blank,
    Invalid,
    Entry(Seq<char>),
}

impl View for HistoryLine {
    type V = HistoryLineView;

    open spec fn view(&self) -> HistoryLineView {
        match self {
            HistoryLine::Blank => HistoryLineView::Blank,
            HistoryLine::Invalid => HistoryLineView::Invalid,
            HistoryLine::Entry(s) => HistoryLineView::Entry(s@),
        }
    }
}

pub open spec fn line_views(v: Seq<HistoryLine>) -> Seq<HistoryLineView> {
    v.map_values(|l: HistoryLine| l@)
}

pub open spec fn line_reading(line: Seq<u8>) -> HistoryLineView {
    if blank_line(line) {
        HistoryLineView::Blank
    } else {
        match json_string(line) {
            Some(s) => HistoryLineView::Entry(s),
            None => HistoryLineView::Invalid,
        }
    }
}

fn read_line(line: &Vec<u8>) -> (r: HistoryLine)
    ensures
        r@ == line_reading(line@),
{
    let mut i: usize = 0;
    while i < line.len()
        invariant
            i <= line@.len(),
            forall|j: int| 0 <= j < i ==> is_blank_byte(#[trigger] line@[j]),
        decreases line@.len() - i,
    {
        let b = line[i];
        if !(b == 0x20 || b == 0x09 || b == 0x0a || b == 0x0c || b == 0x0d) {
            proof {
                assert(!is_blank_byte(line@[i as int]));
            }
            return match read_string(line) {
                Some(s) => HistoryLine::Entry(s),
                None => HistoryLine::Invalid,
            };
        }
        i = i + 1;
    }
    HistoryLine::Blank
}

/// The entries that some lines hold.
pub open spec fn entries_in(lines: Seq<HistoryLineView>) -> Seq<Seq<char>>
    decreases lines.len(),
{
    if lines.len() == 0 {
        Seq::empty()
    } else {
        let before = entries_in(lines.drop_last());
        match lines.last() {
            HistoryLineView::Entry(s) => if text::is_blank(s) {
                before
            } else {
                before.push(s)
            },
            _ => before,
        }
    }
}

/// How many lines hold something that is no entry.
pub open spec fn skipped_in(lines: Seq<HistoryLineView>) -> nat
    decreases lines.len(),
{
    if lines.len() == 0 {
        0
    } else {
        skipped_in(lines.drop_last()) + match lines.last() {
            HistoryLineView::Entry(s) => if text::is_blank(s) {
                1nat
            } else {
                0nat
            },
            HistoryLineView::Invalid => 1nat,
            HistoryLineView::Blank => 0nat,
        }
    }
}

/// A history as it was read: its entries, and how many lines had to be left out.
#[derive(Debug, PartialEq, Eq)]
pub struct LoadedHistory {
    pub entries: Vec<String>,
    pub skipped_lines: usize,
}

/// Makes a history of the lines of a file.
pub fn collect_entries(lines: Vec<HistoryLine>) -> (r: LoadedHistory)
    ensures
        text::views(r.entries@) == history::normalized(entries_in(line_views(lines@))),
        history::is_history(text::views(r.entries@)),
        r.skipped_lines == skipped_in(line_views(lines@)),
{
    let ghost all = line_views(lines@);
    let mut entries: Vec<String> = Vec::new();
    let mut skipped_lines: usize = 0;
    let mut i: usize = 0;
    proof {
        assert(all.take(0) =~= Seq::empty());
        assert(text::views(entries@) =~= Seq::empty());
    }
    while i < lines.len()
        invariant
            i <= lines@.len(),
            all == line_views(lines@),
            skipped_lines <= i,
            text::views(entries@) == entries_in(all.take(i as int)),
            skipped_lines == skipped_in(all.take(i as int)),
        decreases lines@.len() - i,
    {
        proof {
            assert(all.take(i + 1).drop_last() =~= all.take(i as int));
            assert(all.take(i + 1).last() == lines@[i as int]@);
        }
        match &lines[i] {
            HistoryLine::Blank => {},
            HistoryLine::Invalid => {
                skipped_lines = skipped_lines + 1;
            },
            HistoryLine::Entry(s) => {
                if text::blank(s.as_str()) {
                    skipped_lines = skipped_lines + 1;
                } else {
                    let ghost before = entries@;
                    let entry = s.clone();
                    entries.push(entry);
                    proof {
                        assert(text::views(entries@) =~= text::views(before).push(entry@));
                    }
                }
            },
        }
        i = i + 1;
    }
    proof {
        assert(all.take(i as int) =~= all);
    }
    LoadedHistory { entries: history::normalize_input_history(entries), skipped_lines }
}

/// The lines of a file, as they are read.
pub open spec fn readings(content: Seq<u8>) -> Seq<HistoryLineView> {
    byte_lines(content).map_values(|l: Seq<u8>| line_reading(l))
}

/// The history that a file holds. Lines that are no entries are left out.
pub open spec fn history_in(content: Seq<u8>) -> Seq<Seq<char>> {
    history::normalized(entries_in(readings(content)))
}

/// The views of the lines of a file.
pub open spec fn bytes_views(v: Seq<Vec<u8>>) -> Seq<Seq<u8>> {
    v.map_values(|l: Vec<u8>| l@)
}

fn split_lines(content: &Vec<u8>) -> (r: Vec<Vec<u8>>)
    ensures
        bytes_views(r@) == byte_lines(content@),
{
    let mut done: Vec<Vec<u8>> = Vec::new();
    let mut line: Vec<u8> = Vec::new();
    let mut i: usize = 0;
    proof {
        assert(bytes_views(done@) =~= Seq::empty());
        assert(content@.take(0) =~= Seq::empty());
    }
    while i < content.len()
        invariant
            i <= content@.len(),
            line@.len() == 0 <==> (i == 0 || content@[i - 1] == 0x0a),
            byte_lines(content@.take(i as int)) == (if line@.len() == 0 {
                bytes_views(done@)
            } else {
                bytes_views(done@).push(line@)
            }),
        decreases content@.len() - i,
    {
        let b = content[i];
        let ghost begun = line@;
        let ghost before = done@;
        proof {
            let t = content@.take(i + 1);
            assert(t.drop_last() =~= content@.take(i as int));
            assert(t.last() == b);
            assert(i > 0 ==> t[t.len() - 2] == content@[i - 1]);
            assert(bytes_views(before).push(begun).drop_last() =~= bytes_views(before));
        }
        line.push(b);
        proof {
            if begun.len() == 0 {
                assert(line@ =~= seq![b]);
            }
            assert(byte_lines(content@.take(i + 1)) == bytes_views(before).push(line@));
        }
        if b == 0x0a {
            let ghost whole = line@;
            done.push(line);
            line = Vec::new();
            proof {
                assert(bytes_views(done@) =~= bytes_views(before).push(whole));
            }
        }
        i = i + 1;
    }
    proof {
        assert(content@.take(i as int) =~= content@);
    }
    if line.len() > 0 {
        let ghost before = done@;
        let ghost whole = line@;
        done.push(line);
        proof {
            assert(bytes_views(done@) =~= bytes_views(before).push(whole));
        }
    }
    done
}

/// Reads a history out of a file.
pub fn load_history(content: &Vec<u8>) -> (r: LoadedHistory)
    ensures
        text::views(r.entries@) == history_in(content@),
        history::is_history(text::views(r.entries@)),
        r.skipped_lines == skipped_in(readings(content@)),
{
    let lines = split_lines(content);
    let mut read: Vec<HistoryLine> = Vec::new();
    let mut i: usize = 0;
    let ghost all = readings(content@);
    proof {
        assert(line_views(read@) =~= all.take(0));
    }
    while i < lines.len()
        invariant
            i <= lines@.len(),
            bytes_views(lines@) == byte_lines(content@),
            all == readings(content@),
            line_views(read@) == all.take(i as int),
        decreases lines@.len() - i,
    {
        let l = read_line(&lines[i]);
        let ghost before = read@;
        read.push(l);
        proof {
            assert(bytes_views(lines@)[i as int] == lines@[i as int]@);
            assert(all[i as int] == l@);
            assert(line_views(read@) =~= line_views(before).push(l@));
            assert(all.take(i + 1) =~= all.take(i as int).push(all[i as int]));
        }
        i = i + 1;
    }
    proof {
        assert(bytes_views(lines@).len() == lines@.len());
        assert(all.take(i as int) =~= all);
    }
    collect_entries(read)
}

/// The entries that are not blank.
pub open spec fn worth_keeping(entries: Seq<Seq<char>>) -> Seq<Seq<char>>
    decreases entries.len(),
{
    if entries.len() == 0 {
        Seq::empty()
    } else {
        let before = worth_keeping(entries.drop_last());
        if text::is_blank(entries.last()) {
            before
        } else {
            before.push(entries.last())
        }
    }
}

/// Blank entries make no difference to a history.
proof fn lemma_blanks_do_not_count(entries: Seq<Seq<char>>)
    ensures
        history::normalized(worth_keeping(entries)) == history::normalized(entries),
    decreases entries.len(),
{
    if entries.len() > 0 {
        let before = worth_keeping(entries.drop_last());
        lemma_blanks_do_not_count(entries.drop_last());
        if !text::is_blank(entries.last()) {
            assert(before.push(entries.last()).drop_last() =~= before);
        }
    }
}

/// Of entries none of which is blank, all are worth keeping.
proof fn lemma_all_worth_keeping(entries: Seq<Seq<char>>)
    requires
        forall|i: int| 0 <= i < entries.len() ==> !text::is_blank(#[trigger] entries[i]),
    ensures
        worth_keeping(entries) == entries,
    decreases entries.len(),
{
    if entries.len() > 0 {
        assert forall|i: int| 0 <= i < entries.len() - 1 implies !text::is_blank(
            #[trigger] entries.drop_last()[i],
        ) by {
            assert(entries.drop_last()[i] == entries[i]);
        }
        lemma_all_worth_keeping(entries.drop_last());
        assert(!text::is_blank(entries[entries.len() - 1]));
        assert(entries.drop_last().push(entries.last()) =~= entries);
    }
}

/// Entries as the lines of a file that hold them.
pub open spec fn entry_lines(entries: Seq<Seq<char>>) -> Seq<HistoryLineView> {
    entries.map_values(|e: Seq<char>| HistoryLineView::Entry(e))
}

/// Writes a history as a file, one line for each entry, which is read back as the same
/// history.
pub fn history_file(entries: &Vec<String>) -> (r: Vec<u8>)
    ensures
        readings(r@) == entry_lines(text::views(entries@)),
        history_in(r@) == history::normalized(text::views(entries@)),
        skipped_in(readings(r@)) == entries@.len() - worth_keeping(text::views(entries@)).len(),
{
    let mut r: Vec<u8> = Vec::new();
    let mut i: usize = 0;
    let ghost all = text::views(entries@);
    proof {
        assert(all.take(0) =~= Seq::empty());
        assert(readings(r@) =~= Seq::empty());
    }
    while i < entries.len()
        invariant
            i <= entries@.len(),
            all == text::views(entries@),
            r@.len() == 0 || r@.last() == 0x0a,
            readings(r@) == entry_lines(all.take(i as int)),
            entries_in(readings(r@)) == worth_keeping(all.take(i as int)),
            skipped_in(readings(r@)) == i - worth_keeping(all.take(i as int)).len(),
        decreases entries@.len() - i,
    {
        let line = write_string(entries[i].as_str());
        let ghost before = r@;
        let ghost whole = line@.push(0x0a);
        append_bytes(&mut r, &line);
        r.push(0x0a);
        proof {
            assert(r@ =~= before + whole);
            lemma_next_line(before, whole);
            assert(readings(r@) =~= readings(before).push(line_reading(whole)));
            assert(readings(r@).drop_last() =~= readings(before));
            assert(!is_blank_byte(whole[0]));
            assert(all.take(i + 1).drop_last() =~= all.take(i as int));
            assert(all.take(i + 1).last() == entries@[i as int]@);
            assert(entry_lines(all.take(i + 1)) =~= entry_lines(all.take(i as int)).push(
                HistoryLineView::Entry(all[i as int]),
            ));
        }
        i = i + 1;
    }
    proof {
        assert(all.take(i as int) =~= all);
        lemma_blanks_do_not_count(all);
    }
    r
}

fn append_bytes(v: &mut Vec<u8>, more: &Vec<u8>)
    ensures
        final(v)@ == old(v)@ + more@,
{
    let ghost before = v@;
    let mut i: usize = 0;
    proof {
        assert(before + more@.take(0) =~= before);
    }
    while i < more.len()
        invariant
            i <= more@.len(),
            v@ == before + more@.take(i as int),
        decreases more@.len() - i,
    {
        v.push(more[i]);
        proof {
            assert(before + more@.take(i + 1) =~= (before + more@.take(i as int)).push(
                more@[i as int],
            ));
        }
        i = i + 1;
    }
    proof {
        assert(more@.take(i as int) =~= more@);
    }
}

/// A history with one more text: its entries, and the file that holds them.
#[derive(Debug, PartialEq, Eq)]
pub struct RecordedHistory {
    pub entries: Vec<String>,
    pub content: Vec<u8>,
}

/// Adds a text to the history in a file. What is written is read back as it is, with no line
/// left out.
pub fn record_history(content: &Vec<u8>, text: &str) -> (r: RecordedHistory)
    ensures
        text::views(r.entries@) == history::pushed(history_in(content@), text@),
        readings(r.content@) == entry_lines(text::views(r.entries@)),
        history_in(r.content@) == text::views(r.entries@),
        skipped_in(readings(r.content@)) == 0,
{
    let mut entries = load_history(content).entries;
    history::push_input_history_entry(&mut entries, text);
    proof {
        history::pushing_keeps_a_history(history_in(content@), text@);
        history::a_history_is_normal(text::views(entries@));
        lemma_all_worth_keeping(text::views(entries@));
        assert(text::views(entries@).len() == entries@.len());
    }
    let written = history_file(&entries);
    RecordedHistory { entries, content: written }
}

/// Why a history could not be kept.
#[derive(Debug, PartialEq, Eq)]
pub enum InputHistoryError {
    Io { operation: &'static str, path: String, source: String },
    InvalidPath { path: String },
    Serialize(String),
    TaskJoin(String),
}

impl InputHistoryError {
    pub fn message(&self) -> (r: String)
        ensures
            r@ == match self {
                InputHistoryError::Io { operation, path, source } => "could not "@ + operation@
                    + " input history path "@ + path@ + ": "@ + source@,
                InputHistoryError::InvalidPath { path } => "input history path "@ + path@
                    + " is invalid"@,
                InputHistoryError::Serialize(e) => "could not serialize input history: "@ + e@,
                InputHistoryError::TaskJoin(e) => "input history persistence task failed: "@ + e@,
            },
    {
        match self {
            InputHistoryError::Io { operation, path, source } => text::cat6(
                "could not ",
                operation,
                " input history path ",
                path.as_str(),
                ": ",
                source.as_str(),
            ),
            InputHistoryError::InvalidPath { path } => text::cat3(
                "input history path ",
                path.as_str(),
                " is invalid",
            ),
            InputHistoryError::Serialize(e) => text::cat2(
                "could not serialize input history: ",
                e.as_str(),
            ),
            InputHistoryError::TaskJoin(e) => text::cat2(
                "input history persistence task failed: ",
                e.as_str(),
            ),
        }
    }
}

/// Some bytes, one directly behind the other.
pub open spec fn all_bytes(parts: Seq<Seq<u8>>) -> Seq<u8>
    decreases parts.len(),
{
    if parts.len() == 0 {
        Seq::empty()
    } else {
        all_bytes(parts.drop_last()) + parts.last()
    }
}

/// The lines of a file hold all its bytes in their order; none is empty, a line break stands at
/// the end of a line only, and every line but the last ends in one.
pub proof fn lines_hold_the_whole_file(s: Seq<u8>)
    ensures
        all_bytes(byte_lines(s)) == s,
        s.len() > 0 ==> byte_lines(s).len() > 0 && byte_lines(s).last().last() == s.last(),
        forall|k: int| 0 <= k < byte_lines(s).len() ==> (#[trigger] byte_lines(s)[k]).len() > 0,
        forall|k: int, i: int|
            0 <= k < byte_lines(s).len() && 0 <= i < byte_lines(s)[k].len() - 1
                ==> #[trigger] byte_lines(s)[k][i] != 0x0a,
        forall|k: int|
            0 <= k < byte_lines(s).len() - 1 ==> (#[trigger] byte_lines(s)[k]).last() == 0x0a,
    decreases s.len(),
{
    let all = byte_lines(s);
    if s.len() > 0 {
        let front = s.drop_last();
        let init = byte_lines(front);
        lines_hold_the_whole_file(front);
        assert(front.push(s.last()) =~= s);
        if s.len() == 1 || s[s.len() - 2] == 0x0a {
            assert(all.drop_last() =~= init);
            assert(all_bytes(all) =~= s);
            assert forall|k: int| 0 <= k < all.len() - 1 implies (#[trigger] all[k]).last()
                == 0x0a by {
                assert(all[k] == init[k]);
                if k == init.len() - 1 {
                    assert(init.last().last() == front.last());
                }
            }
        } else {
            let last = init.last();
            assert(front.last() == s[s.len() - 2]);
            assert(all.drop_last() =~= init.drop_last());
            assert(all.last() == last.push(s.last()));
            assert(all_bytes(init) == all_bytes(init.drop_last()) + last);
            assert(all_bytes(all) =~= s);
            assert forall|k: int, i: int|
                0 <= k < all.len() && 0 <= i < all[k].len() - 1 implies #[trigger] all[k][i]
                != 0x0a by {
                assert(k < init.len());
                if k < init.len() - 1 {
                    assert(all[k] == init[k]);
                    assert(init[k][i] != 0x0a);
                } else if i < last.len() - 1 {
                    assert(init[k][i] != 0x0a);
                } else {
                    assert(all[k][i] == last.last());
                }
            }
            assert forall|k: int| 0 <= k < all.len() implies (#[trigger] all[k]).len() > 0 by {
                if k < init.len() - 1 {
                    assert(all[k] == init[k]);
                }
            }
            assert forall|k: int| 0 <= k < all.len() - 1 implies (#[trigger] all[k]).last()
                == 0x0a by {
                assert(all[k] == init[k]);
            }
        }
    }
}

proof fn lemma_hex_digit(d: int)
    requires
        0 <= d < 16,
    ensures
        d < 10 ==> hex_digit(d) as int == 0x30 + d,
        d >= 10 ==> hex_digit(d) as int == 0x57 + d,
{
    let low = (0x30 + d) as u8;
    let high = (0x57 + d) as u8;
    assert(low as char as u32 == low as u32);
    assert(high as char as u32 == high as u32);
}

/// Hexadecimal digits tell bytes apart: different ones are written differently, with two digits
/// each.
pub proof fn different_bytes_are_written_differently(a: Seq<u8>, b: Seq<u8>)
    ensures
        hex(a).len() == 2 * a.len(),
        hex(a) == hex(b) ==> a == b,
    decreases a.len(),
{
    if a.len() > 0 {
        different_bytes_are_written_differently(a.drop_last(), b.drop_last());
    }
    lemma_hex_len(b);
    if hex(a) == hex(b) {
        assert(a.len() == b.len());
        if a.len() > 0 {
            let n = hex(a).len();
            let x = a.last() as int;
            let y = b.last() as int;
            lemma_hex_digit(x / 16);
            lemma_hex_digit(x % 16);
            lemma_hex_digit(y / 16);
            lemma_hex_digit(y % 16);
            lemma_hex_len(a.drop_last());
            lemma_hex_len(b.drop_last());
            assert(hex(a)[n - 1] == hex_digit(x % 16));
            assert(hex(b)[n - 1] == hex_digit(y % 16));
            assert(hex(a)[n - 2] == hex_digit(x / 16));
            assert(hex(b)[n - 2] == hex_digit(y / 16));
            assert(hex(a).take(n - 2) =~= hex(a.drop_last()));
            assert(hex(b).take(n - 2) =~= hex(b.drop_last()));
            assert(x == y);
            assert(a.drop_last().push(a.last()) =~= a);
            assert(b.drop_last().push(b.last()) =~= b);
        } else {
            assert(a =~= b);
        }
    }
}

proof fn lemma_hex_len(a: Seq<u8>)
    ensures
        hex(a).len() == 2 * a.len(),
    decreases a.len(),
{
    if a.len() > 0 {
        lemma_hex_len(a.drop_last());
    }
}

proof fn lemma_entries(lines: Seq<HistoryLineView>, entry: HistoryLineView, s: Seq<char>)
    requires
        entry == HistoryLineView::Entry(s),
    ensures
        entries_in(lines).contains(s) <==> lines.contains(entry) && !text::is_blank(s),
        entries_in(lines).len() + skipped_in(lines) <= lines.len(),
    decreases lines.len(),
{
    if lines.len() > 0 {
        let front = lines.drop_last();
        let before = entries_in(front);
        let now = entries_in(lines);
        lemma_entries(front, entry, s);
        assert(front.push(lines.last()) =~= lines);
        if front.contains(entry) {
            let i = choose|i: int| 0 <= i < front.len() && front[i] == entry;
            assert(lines[i] == entry);
            assert(lines.contains(entry));
        }
        if lines.contains(entry) && !front.contains(entry) {
            let i = choose|i: int| 0 <= i < lines.len() && lines[i] == entry;
            if i < front.len() {
                assert(front[i] == entry);
            }
            assert(lines.last() == entry);
        }
        if before.contains(s) {
            let i = choose|i: int| 0 <= i < before.len() && before[i] == s;
            assert(now[i] == s);
            assert(now.contains(s));
        }
        if now.contains(s) && !before.contains(s) {
            let i = choose|i: int| 0 <= i < now.len() && now[i] == s;
            if i < before.len() {
                assert(before[i] == s);
            }
            assert(lines.last() == entry);
            assert(lines[lines.len() - 1] == entry);
        }
        if lines.last() == entry {
            assert(lines[lines.len() - 1] == entry);
            assert(lines.contains(entry));
            if !text::is_blank(s) {
                assert(now.last() == s);
                assert(now[now.len() - 1] == s);
                assert(now.contains(s));
            }
        }
    }
}

/// What a file's lines hold as entries, and nothing else, is read, but for blank ones.
pub proof fn entries_are_read_from_their_lines(
    lines: Seq<HistoryLineView>,
    entry: HistoryLineView,
    s: Seq<char>,
)
    requires
        entry == HistoryLineView::Entry(s),
    ensures
        entries_in(lines).contains(s) <==> lines.contains(entry) && !text::is_blank(s),
{
    lemma_entries(lines, entry, s);
}

/// Every line of a file is an entry, or skipped, or blank: one more line is one more of just
/// one of these.
pub proof fn lines_are_read_or_skipped(lines: Seq<HistoryLineView>, line: HistoryLineView)
    ensures
        line is Blank ==> entries_in(lines.push(line)) == entries_in(lines) && skipped_in(
            lines.push(line),
        ) == skipped_in(lines),
        line is Invalid ==> entries_in(lines.push(line)) == entries_in(lines) && skipped_in(
            lines.push(line),
        ) == skipped_in(lines) + 1,
        line matches HistoryLineView::Entry(s) ==> (entries_in(lines.push(line)).len() + skipped_in(
            lines.push(line),
        ) == entries_in(lines).len() + skipped_in(lines) + 1),
        line matches HistoryLineView::Entry(s) ==> !text::is_blank(s) ==> entries_in(
            lines.push(line),
        ) == entries_in(lines).push(s),
{
    assert(lines.push(line).drop_last() =~= lines);
}

} // verus!
