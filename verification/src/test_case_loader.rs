//! The test-case bundle loader: an archive organised as one folder per
//! test, each folder holding a markdown report, screenshots, a video
//! and a nested trace archive in any mixture.
//!
//! Folders are grouped by first path segment in first-encounter order;
//! a folder whose files cannot all be read is dropped, and the rest
//! still load.
use vstd::prelude::*;

use crate::archive::{
    all_entries_readable, archive_entries, archive_entry_bytes, archive_entry_text,
    zip_entry_data, zip_entry_is_dir, zip_entry_list, zip_entry_text, ArchiveFault,
};
use crate::models::{
    AttachmentRep, TestAttachment, TestCase, TestCaseCollection, TestCaseRep, TestStatus,
};
use crate::strutil::{
    chars_of, contains_seq, contains_spec, ends_with, ends_with_spec, lower_spec, split_char,
    split_seq, starts_with, starts_with_spec, string_of, subrange_vec, to_lower, trim, trim_spec,
    upper_char,
};

verus! {

broadcast use vstd::string::group_string_axioms;

/// Why a test-case load failed outright (only a malformed container
/// does; folder-level trouble just drops the folder).
#[derive(Debug)]
pub enum TestCaseLoadError {
    ZipError(String),
    IoError(String),
    ParseError(String),
}

/// What the base64 engine encodes a byte string to.
pub uninterp spec fn base64_of(bytes: Seq<u8>) -> Seq<char>;

/// Relies on base64's standard engine: the encoding of a byte string
/// is a pure function of the bytes, named `base64_of`.
#[verifier::external_body]
fn encode_base64(bytes: &[u8]) -> (r: String)
    ensures
        r@ == base64_of(bytes@),
{
    base64::Engine::encode(&base64::engine::general_purpose::STANDARD, bytes)
}

/// The first path segment, once slashes at either end are removed;
/// `None` where nothing usable is left.
pub open spec fn folder_name_spec(path: Seq<char>) -> Option<Seq<char>> {
    let t = trim_slashes_end(trim_slashes_start(path));
    let seg = (match crate::strutil::find_char(t, '/') {
        Some(i) => t.take(i),
        None => t,
    });
    if seg.len() == 0 {
        None
    } else {
        Some(seg)
    }
}

pub open spec fn trim_slashes_start(s: Seq<char>) -> Seq<char>
    decreases s.len(),
{
    if s.len() > 0 && s[0] == '/' {
        trim_slashes_start(s.drop_first())
    } else {
        s
    }
}

pub open spec fn trim_slashes_end(s: Seq<char>) -> Seq<char>
    decreases s.len(),
{
    if s.len() > 0 && s.last() == '/' {
        trim_slashes_end(s.drop_last())
    } else {
        s
    }
}

proof fn lemma_trim_slashes_start(s: Seq<char>, i: int)
    requires
        0 <= i <= s.len(),
        forall|k: int| 0 <= k < i ==> s[k] == '/',
        i == s.len() || s[i] != '/',
    ensures
        trim_slashes_start(s) == s.skip(i),
    decreases i,
{
    if i == 0 {
        assert(s.skip(0) =~= s);
    } else {
        lemma_trim_slashes_start(s.drop_first(), i - 1);
        assert(s.drop_first().skip(i - 1) =~= s.skip(i));
    }
}

proof fn lemma_trim_slashes_end(s: Seq<char>, j: int)
    requires
        0 <= j <= s.len(),
        forall|k: int| j <= k < s.len() ==> s[k] == '/',
        j == 0 || s[j - 1] != '/',
    ensures
        trim_slashes_end(s) == s.take(j),
    decreases s.len() - j,
{
    if j == s.len() {
        assert(s.take(j) =~= s);
    } else {
        lemma_trim_slashes_end(s.drop_last(), j);
        assert(s.drop_last().take(j) =~= s.take(j));
    }
}

/// The first path segment of `path`, as `folder_name_spec` gives it.
pub fn extract_folder_name(path: &str) -> (r: Option<String>)
    ensures
        match r {
            Some(s) => folder_name_spec(path@) == Some(s@),
            None => folder_name_spec(path@) is None,
        },
{
    let cs = chars_of(path);
    let n = cs.len();
    let mut a: usize = 0;
    while a < n && cs[a] == '/'
        invariant
            a <= n,
            n == cs@.len(),
            cs@ == path@,
            forall|k: int| 0 <= k < a ==> cs@[k] == '/',
        decreases n - a,
    {
        a += 1;
    }
    let mut b: usize = n;
    while b > a && cs[b - 1] == '/'
        invariant
            a <= b <= n,
            n == cs@.len(),
            cs@ == path@,
            forall|k: int| b <= k < n ==> cs@[k] == '/',
        decreases b,
    {
        b -= 1;
    }
    proof {
        lemma_trim_slashes_start(cs@, a as int);
    }
    let ghost t0 = cs@.skip(a as int);
    proof {
        if b == a {
            lemma_trim_slashes_end(t0, 0);
        } else {
            assert(t0[b - a - 1] == cs@[b - 1]);
            assert(forall|k: int| b - a <= k < t0.len() ==> t0[k] == '/');
            lemma_trim_slashes_end(t0, b - a);
        }
    }
    let ghost t = t0.take(b - a);
    // first segment: up to the first slash inside [a, b)
    let mut e: usize = a;
    while e < b && cs[e] != '/'
        invariant
            a <= e <= b <= n,
            n == cs@.len(),
            cs@ == path@,
            forall|k: int| a <= k < e ==> cs@[k] != '/',
        decreases b - e,
    {
        e += 1;
    }
    proof {
        crate::strutil::lemma_find_char(t, '/');
        assert(forall|k: int| 0 <= k < t.len() ==> t[k] == cs@[a + k]);
        match crate::strutil::find_char(t, '/') {
            None => {
                if e < b {
                    assert(t[e - a] == '/');
                    assert(false);
                }
            },
            Some(f) => {
                if e == b {
                    assert(cs@[a + f] == '/');
                    assert(false);
                } else {
                    if f < e - a {
                        assert(cs@[a + f] == '/');
                        assert(false);
                    }
                    if f > e - a {
                        assert(t[e - a] == '/');
                        assert(false);
                    }
                }
            },
        }
    }
    if e == a {
        proof {
            match crate::strutil::find_char(t, '/') {
                None => {
                    assert(t.len() == 0);
                },
                Some(f) => {
                    assert(t.take(f).len() == 0);
                },
            }
        }
        return None;
    }
    let seg = subrange_vec(cs.as_slice(), a, e);
    proof {
        match crate::strutil::find_char(t, '/') {
            None => {
                assert(seg@ =~= t);
            },
            Some(f) => {
                assert(seg@ =~= t.take(f));
            },
        }
    }
    Some(string_of(seg.as_slice()))
}

/// The MIME type taken from the lower-cased extension, with
/// `application/octet-stream` for anything unrecognised.
pub open spec fn mime_of(name: Seq<char>) -> Seq<char> {
    let lower = lower_spec(name);
    if ends_with_spec(lower, ".png"@) {
        "image/png"@
    } else if ends_with_spec(lower, ".jpg"@) || ends_with_spec(lower, ".jpeg"@) {
        "image/jpeg"@
    } else if ends_with_spec(lower, ".webm"@) {
        "video/webm"@
    } else if ends_with_spec(lower, ".mp4"@) {
        "video/mp4"@
    } else if ends_with_spec(lower, ".zip"@) {
        "application/zip"@
    } else {
        "application/octet-stream"@
    }
}

/// The MIME type for a file name, as `mime_of` gives it.
pub fn determine_mime_type(filename: &str) -> (r: &'static str)
    ensures
        r@ == mime_of(filename@),
{
    let cs = chars_of(filename);
    let lower = to_lower(cs.as_slice());
    if ends_with(lower.as_slice(), chars_of(".png").as_slice()) {
        "image/png"
    } else if ends_with(lower.as_slice(), chars_of(".jpg").as_slice()) || ends_with(
        lower.as_slice(),
        chars_of(".jpeg").as_slice(),
    ) {
        "image/jpeg"
    } else if ends_with(lower.as_slice(), chars_of(".webm").as_slice()) {
        "video/webm"
    } else if ends_with(lower.as_slice(), chars_of(".mp4").as_slice()) {
        "video/mp4"
    } else if ends_with(lower.as_slice(), chars_of(".zip").as_slice()) {
        "application/zip"
    } else {
        "application/octet-stream"
    }
}

/// The first line of `text` that is not blank, trimmed.
pub open spec fn first_line_spec(text: Seq<char>) -> Option<Seq<char>> {
    first_nonblank(split_char(text, '\n'))
}

pub open spec fn first_nonblank(lines: Seq<Seq<char>>) -> Option<Seq<char>>
    decreases lines.len(),
{
    if lines.len() == 0 {
        None
    } else if trim_spec(lines[0]).len() > 0 {
        Some(trim_spec(lines[0]))
    } else {
        first_nonblank(lines.drop_first())
    }
}

/// The first non-blank line of `text`, trimmed, as `first_line_spec`
/// gives it.
pub fn extract_first_line(text: &str) -> (r: Option<String>)
    ensures
        match r {
            Some(s) => first_line_spec(text@) == Some(s@),
            None => first_line_spec(text@) is None,
        },
{
    let cs = chars_of(text);
    let lines = split_seq(cs.as_slice(), '\n');
    let ghost glines = lines.deep_view();
    proof {
        assert(glines.skip(0) =~= glines);
    }
    let mut i: usize = 0;
    while i < lines.len()
        invariant
            i <= lines@.len(),
            glines == lines.deep_view(),
            glines.len() == lines@.len(),
            glines == split_char(cs@, '\n'),
            cs@ == text@,
            first_nonblank(glines) == first_nonblank(glines.skip(i as int)),
        decreases lines@.len() - i,
    {
        proof {
            assert(glines.skip(i as int)[0] == glines[i as int]);
            assert(glines[i as int] =~= lines@[i as int]@);
        }
        let t = trim(lines[i].as_slice());
        if t.len() > 0 {
            return Some(string_of(t.as_slice()));
        }
        proof {
            assert(glines.skip(i as int).drop_first() =~= glines.skip(i + 1));
        }
        i += 1;
    }
    proof {
        assert(glines.skip(i as int) =~= Seq::<Seq<char>>::empty());
    }
    None
}

/// Capitalises each word of a folder name, with `-` and `_` read as
/// spaces: the words, first letter raised, joined by single spaces.
pub open spec fn display_name_spec(folder: Seq<char>) -> Seq<char> {
    let replaced = folder.map_values(
        |c: char|
            if c == '-' || c == '_' {
                ' '
            } else {
                c
            },
    );
    join_words(nonblank_words(split_char(replaced, ' ')))
}

pub open spec fn capitalize_word(w: Seq<char>) -> Seq<char> {
    if w.len() == 0 {
        w
    } else {
        seq![upper_char(w[0])] + w.drop_first()
    }
}

pub open spec fn join_words(ws: Seq<Seq<char>>) -> Seq<char>
    decreases ws.len(),
{
    if ws.len() == 0 {
        Seq::empty()
    } else if ws.len() == 1 {
        capitalize_word(ws[0])
    } else {
        join_words(ws.drop_last()) + seq![' '] + capitalize_word(ws.last())
    }
}


/// A word with its first letter raised.
fn capitalize_exec(w: &[char]) -> (r: Vec<char>)
    ensures
        r@ == capitalize_word(w@),
{
    let mut r: Vec<char> = Vec::new();
    if w.len() == 0 {
        proof {
            assert(r@ =~= capitalize_word(w@));
        }
        return r;
    }
    let c = w[0];
    if 'a' <= c && c <= 'z' {
        r.push(((c as u8) - 32) as char);
    } else {
        r.push(c);
    }
    let mut i: usize = 1;
    while i < w.len()
        invariant
            1 <= i <= w@.len(),
            r@.len() == i,
            r@[0] == upper_char(w@[0]),
            forall|k: int| 1 <= k < i ==> r@[k] == w@[k],
        decreases w@.len() - i,
    {
        r.push(w[i]);
        i += 1;
    }
    proof {
        assert(r@ =~= capitalize_word(w@));
    }
    r
}

/// The non-blank pieces, in order.
pub open spec fn nonblank_words(ws: Seq<Seq<char>>) -> Seq<Seq<char>>
    decreases ws.len(),
{
    if ws.len() == 0 {
        Seq::empty()
    } else {
        nonblank_words(ws.drop_last()) + (if ws.last().len() > 0 {
            seq![ws.last()]
        } else {
            Seq::empty()
        })
    }
}

/// The display name for a folder, as `display_name_spec` gives it.
pub fn format_test_name(folder_name: &str) -> (r: String)
    ensures
        r@ == display_name_spec(folder_name@),
{
    let cs = chars_of(folder_name);
    let mut replaced: Vec<char> = Vec::new();
    let mut i: usize = 0;
    while i < cs.len()
        invariant
            i <= cs@.len(),
            replaced@ =~= cs@.take(i as int).map_values(
                |c: char|
                    if c == '-' || c == '_' {
                        ' '
                    } else {
                        c
                    },
            ),
        decreases cs@.len() - i,
    {
        let c = cs[i];
        if c == '-' || c == '_' {
            replaced.push(' ');
        } else {
            replaced.push(c);
        }
        proof {
            assert(replaced@ =~= cs@.take(i + 1).map_values(
                |c: char|
                    if c == '-' || c == '_' {
                        ' '
                    } else {
                        c
                    },
            ));
        }
        i += 1;
    }
    let ghost grep = replaced@;
    proof {
        assert(grep =~= folder_name@.map_values(
            |c: char|
                if c == '-' || c == '_' {
                    ' '
                } else {
                    c
                },
        ));
    }
    let pieces = split_seq(replaced.as_slice(), ' ');
    let ghost gpieces = pieces.deep_view();
    let mut words: Vec<Vec<char>> = Vec::new();
    proof {
        assert(gpieces.take(0) =~= Seq::<Seq<char>>::empty());
        assert(words.deep_view() =~= nonblank_words(gpieces.take(0)));
    }
    let mut i: usize = 0;
    while i < pieces.len()
        invariant
            i <= pieces@.len(),
            gpieces == pieces.deep_view(),
            gpieces.len() == pieces@.len(),
            words.deep_view() == nonblank_words(gpieces.take(i as int)),
        decreases pieces@.len() - i,
    {
        let ghost before = words.deep_view();
        proof {
            assert(gpieces.take(i + 1).drop_last() =~= gpieces.take(i as int));
            assert(gpieces.take(i + 1).last() == gpieces[i as int]);
            assert(gpieces[i as int] =~= pieces@[i as int]@);
        }
        if pieces[i].len() > 0 {
            let mut w: Vec<char> = Vec::new();
            let mut k: usize = 0;
            while k < pieces[i].len()
                invariant
                    i < pieces@.len(),
                    k <= pieces@[i as int]@.len(),
                    w@ =~= pieces@[i as int]@.take(k as int),
                decreases pieces@[i as int]@.len() - k,
            {
                w.push(pieces[i][k]);
                k += 1;
            }
            proof {
                assert(w@ =~= pieces@[i as int]@);
            }
            words.push(w);
            proof {
                assert(words.deep_view() =~~= before.push(gpieces[i as int]));
                assert(before + seq![gpieces[i as int]] =~= before.push(
                    gpieces[i as int],
                ));
            }
        } else {
            proof {
                assert(before + Seq::<Seq<char>>::empty() =~= before);
            }
        }
        i += 1;
    }
    proof {
        assert(gpieces.take(gpieces.len() as int) =~= gpieces);
    }
    let ghost gwords = words.deep_view();
    let mut out: Vec<char> = Vec::new();
    proof {
        assert(gwords.take(0) =~= Seq::<Seq<char>>::empty());
        assert(out@ =~= join_words(gwords.take(0)));
    }
    let mut j: usize = 0;
    while j < words.len()
        invariant
            j <= words@.len(),
            gwords == words.deep_view(),
            gwords.len() == words@.len(),
            out@ == join_words(gwords.take(j as int)),
        decreases words@.len() - j,
    {
        proof {
            assert(gwords.take(j + 1).drop_last() =~= gwords.take(j as int));
            assert(gwords.take(j + 1).last() == gwords[j as int]);
            assert(gwords[j as int] =~= words@[j as int]@);
        }
        let cap = capitalize_exec(words[j].as_slice());
        if j > 0 {
            out.push(' ');
        }
        let mut k: usize = 0;
        let ghost mid = out@;
        while k < cap.len()
            invariant
                k <= cap@.len(),
                out@ =~= mid + cap@.take(k as int),
            decreases cap@.len() - k,
        {
            out.push(cap[k]);
            k += 1;
        }
        proof {
            assert(out@ =~= mid + cap@);
            if j == 0 {
                assert(join_words(gwords.take(1)) == capitalize_word(gwords[0]));
                assert(out@ =~= capitalize_word(gwords[0]));
            } else {
                assert(gwords.take(j + 1).len() >= 2);
                assert(out@ =~= join_words(gwords.take(j as int)) + seq![' ']
                    + capitalize_word(gwords[j as int]));
            }
        }
        j += 1;
    }
    proof {
        assert(gwords.take(gwords.len() as int) =~= gwords);
        assert(split_char(grep, ' ') =~~= gpieces);
        assert(nonblank_words(split_char(grep, ' ')) == gwords);
    }
    string_of(out.as_slice())
}


/// The file-name part of a path: everything after the last slash.
pub open spec fn basename_spec(p: Seq<char>) -> Seq<char> {
    split_char(p, '/').last()
}

fn basename_exec(p: &str) -> (r: Vec<char>)
    ensures
        r@ == basename_spec(p@),
{
    let cs = chars_of(p);
    let pieces = split_seq(cs.as_slice(), '/');
    proof {
        assert(pieces.deep_view().len() > 0) by {
            crate::strutil::lemma_find_char(cs@, '/');
        }
    }
    let last = pieces.len() - 1;
    let mut r: Vec<char> = Vec::new();
    let mut k: usize = 0;
    while k < pieces[last].len()
        invariant
            last == pieces@.len() - 1,
            pieces@.len() >= 1,
            k <= pieces@[last as int]@.len(),
            r@ =~= pieces@[last as int]@.take(k as int),
        decreases pieces@[last as int]@.len() - k,
    {
        r.push(pieces[last][k]);
        k += 1;
    }
    proof {
        assert(r@ =~= pieces@[last as int]@);
        assert(pieces.deep_view()[last as int] =~= pieces@[last as int]@);
        assert(pieces.deep_view().last() == pieces.deep_view()[last as int]);
    }
    r
}

/// The self-contained attachment built from one file's bytes.
pub open spec fn attachment_spec(path: Seq<char>, data: Seq<u8>) -> AttachmentRep {
    AttachmentRep {
        name: basename_spec(path),
        mime_type: mime_of(path),
        data_url: "data:"@ + mime_of(path) + ";base64,"@ + base64_of(data),
        size_bytes: Some(data.len() as usize),
    }
}

/// Reads one file and wraps it as an attachment, exactly as
/// `attachment_spec` describes.
fn load_binary_file_as_attachment(bytes: &[u8], name: &str) -> (r: Result<
    TestAttachment,
    TestCaseLoadError,
>)
    ensures
        match r {
            Ok(a) => zip_entry_data(bytes@, name@) matches Some(d) && a@ == attachment_spec(
                name@,
                d,
            ),
            Err(_) => zip_entry_data(bytes@, name@) is None,
        },
{
    let data = (match archive_entry_bytes(bytes, name) {
        Ok(d) => d,
        Err(f) => {
            return Err(case_fault(f));
        },
    });
    let size_bytes = Some(data.len());
    let mime_type = determine_mime_type(name);
    let b64 = encode_base64(data.as_slice());
    let data_url = String::from_str("data:").concat(mime_type).concat(";base64,").concat(
        b64.as_str(),
    );
    let file_name = string_of(basename_exec(name).as_slice());
    Ok(
        TestAttachment {
            name: file_name,
            mime_type: mime_type.to_string(),
            data_url,
            size_bytes,
        },
    )
}

/// Reads one file as text.
fn read_text_file_from_archive(bytes: &[u8], name: &str) -> (r: Result<String, TestCaseLoadError>)
    ensures
        match r {
            Ok(s) => zip_entry_text(bytes@, name@) == Some(s@),
            Err(_) => zip_entry_text(bytes@, name@) is None,
        },
{
    match archive_entry_text(bytes, name) {
        Ok(s) => Ok(s),
        Err(f) => Err(case_fault(f)),
    }
}

fn case_fault(f: ArchiveFault) -> (r: TestCaseLoadError)
    ensures
        f is Zip ==> r is ZipError,
        f is Io ==> r is IoError,
{
    match f {
        ArchiveFault::Zip(m) => TestCaseLoadError::ZipError(m),
        ArchiveFault::Io(m) => TestCaseLoadError::IoError(m),
    }
}

/// The artifacts gathered while walking one folder's files.
pub ghost struct FolderParts {
    pub markdown: Option<Seq<char>>,
    pub shots: Seq<AttachmentRep>,
    pub video: Option<AttachmentRep>,
    pub trace: Option<AttachmentRep>,
}

/// Walks the first `n` files of a folder, classifying each by its
/// lower-cased file name: the first markdown report wins, screenshots
/// accumulate in order, the last video and the last trace-named nested
/// archive win, anything else is ignored.  One unreadable file spoils
/// the folder (`None`).
pub open spec fn folder_parts(bytes: Seq<u8>, paths: Seq<Seq<char>>, n: int) -> Option<FolderParts>
    decreases n,
{
    if n <= 0 {
        Some(
            FolderParts {
                markdown: None,
                shots: Seq::empty(),
                video: None,
                trace: None,
            },
        )
    } else {
        match folder_parts(bytes, paths, n - 1) {
            None => None,
            Some(ps) => {
                let path = paths[n - 1];
                let base = lower_spec(basename_spec(path));
                if ends_with_spec(base, ".md"@) {
                    match zip_entry_text(bytes, path) {
                        None => None,
                        Some(t) => Some(
                            FolderParts {
                                markdown: if ps.markdown is None {
                                    Some(t)
                                } else {
                                    ps.markdown
                                },
                                ..ps
                            },
                        ),
                    }
                } else if ends_with_spec(base, ".png"@) || ends_with_spec(base, ".jpg"@)
                    || ends_with_spec(base, ".jpeg"@) {
                    match zip_entry_data(bytes, path) {
                        None => None,
                        Some(d) => Some(
                            FolderParts { shots: ps.shots.push(attachment_spec(path, d)), ..ps },
                        ),
                    }
                } else if ends_with_spec(base, ".webm"@) || ends_with_spec(base, ".mp4"@) {
                    match zip_entry_data(bytes, path) {
                        None => None,
                        Some(d) => Some(
                            FolderParts { video: Some(attachment_spec(path, d)), ..ps },
                        ),
                    }
                } else if ends_with_spec(base, ".zip"@) && contains_spec(base, "trace"@) {
                    match zip_entry_data(bytes, path) {
                        None => None,
                        Some(d) => Some(
                            FolderParts { trace: Some(attachment_spec(path, d)), ..ps },
                        ),
                    }
                } else {
                    Some(ps)
                }
            },
        }
    }
}

/// A spoiled prefix spoils the whole folder.
proof fn lemma_folder_parts_none(bytes: Seq<u8>, paths: Seq<Seq<char>>, i: int, n: int)
    requires
        0 <= i <= n,
        folder_parts(bytes, paths, i) is None,
    ensures
        folder_parts(bytes, paths, n) is None,
    decreases n - i,
{
    if i < n {
        lemma_folder_parts_none(bytes, paths, i + 1, n);
    }
}

/// Whether a folder reads as failed: its name says so, or a markdown
/// report is present at all.
pub open spec fn status_of(key: Seq<char>, markdown: Option<Seq<char>>) -> TestStatus {
    if contains_spec(lower_spec(key), "fail"@) || contains_spec(lower_spec(key), "error"@)
        || markdown is Some {
        TestStatus::Failed
    } else {
        TestStatus::Passed
    }
}

/// The record one folder assembles to, or `None` where a file of the
/// folder could not be read.
pub open spec fn case_of_folder(bytes: Seq<u8>, key: Seq<char>, paths: Seq<Seq<char>>) -> Option<
    TestCaseRep,
> {
    match folder_parts(bytes, paths, paths.len() as int) {
        None => None,
        Some(ps) => {
            let status = status_of(key, ps.markdown);
            Some(
                TestCaseRep {
                    id: key,
                    name: display_name_spec(key),
                    status,
                    markdown_content: ps.markdown,
                    screenshots: ps.shots,
                    video: ps.video,
                    trace_file: ps.trace,
                    duration_ms: None,
                    error_message: if status is Failed {
                        match ps.markdown {
                            Some(md) => first_line_spec(md),
                            None => None,
                        }
                    } else {
                        None
                    },
                },
            )
        },
    }
}

/// Builds one folder's record, exactly as `case_of_folder` describes.
fn load_test_case_from_folder(bytes: &[u8], folder_name: &String, files: &Vec<String>) -> (r:
    Result<TestCase, TestCaseLoadError>)
    ensures
        match r {
            Ok(tc) => case_of_folder(bytes@, folder_name@, files.deep_view()) == Some(tc@),
            Err(_) => case_of_folder(bytes@, folder_name@, files.deep_view()) is None,
        },
{
    let ghost gfiles = files.deep_view();
    let mut markdown_content: Option<String> = None;
    let mut screenshots: Vec<TestAttachment> = Vec::new();
    let mut video: Option<TestAttachment> = None;
    let mut trace_file: Option<TestAttachment> = None;
    proof {
        assert(screenshots.deep_view() =~= Seq::<AttachmentRep>::empty());
    }
    let mut i: usize = 0;
    while i < files.len()
        invariant
            i <= files@.len(),
            gfiles == files.deep_view(),
            gfiles.len() == files@.len(),
            folder_parts(bytes@, gfiles, i as int) == Some(FolderParts {
                markdown: markdown_content.deep_view(),
                shots: screenshots.deep_view(),
                video: video.deep_view(),
                trace: trace_file.deep_view(),
            }),
        decreases files@.len() - i,
    {
        proof {
            assert(gfiles[i as int] == files@[i as int]@);
        }
        let base = to_lower(basename_exec(files[i].as_str()).as_slice());
        let path = &files[i];
        if ends_with(base.as_slice(), chars_of(".md").as_slice()) {
            match read_text_file_from_archive(bytes, path.as_str()) {
                Ok(t) => {
                    if markdown_content.is_none() {
                        markdown_content = Some(t);
                    }
                },
                Err(e) => {
                    proof {
                        lemma_folder_parts_none(bytes@, gfiles, i + 1, gfiles.len() as int);
                    }
                    return Err(e);
                },
            }
        } else if ends_with(base.as_slice(), chars_of(".png").as_slice()) || ends_with(
            base.as_slice(),
            chars_of(".jpg").as_slice(),
        ) || ends_with(base.as_slice(), chars_of(".jpeg").as_slice()) {
            match load_binary_file_as_attachment(bytes, path.as_str()) {
                Ok(a) => {
                    let ghost before = screenshots.deep_view();
                    screenshots.push(a);
                    proof {
                        assert(screenshots.deep_view() =~= before.push(a@));
                    }
                },
                Err(e) => {
                    proof {
                        lemma_folder_parts_none(bytes@, gfiles, i + 1, gfiles.len() as int);
                    }
                    return Err(e);
                },
            }
        } else if ends_with(base.as_slice(), chars_of(".webm").as_slice()) || ends_with(
            base.as_slice(),
            chars_of(".mp4").as_slice(),
        ) {
            match load_binary_file_as_attachment(bytes, path.as_str()) {
                Ok(a) => {
                    video = Some(a);
                },
                Err(e) => {
                    proof {
                        lemma_folder_parts_none(bytes@, gfiles, i + 1, gfiles.len() as int);
                    }
                    return Err(e);
                },
            }
        } else if ends_with(base.as_slice(), chars_of(".zip").as_slice()) && contains_seq(
            base.as_slice(),
            chars_of("trace").as_slice(),
        ) {
            match load_binary_file_as_attachment(bytes, path.as_str()) {
                Ok(a) => {
                    trace_file = Some(a);
                },
                Err(e) => {
                    proof {
                        lemma_folder_parts_none(bytes@, gfiles, i + 1, gfiles.len() as int);
                    }
                    return Err(e);
                },
            }
        }
        i += 1;
    }
    let key_lower = to_lower(chars_of(folder_name.as_str()).as_slice());
    let failed = contains_seq(key_lower.as_slice(), chars_of("fail").as_slice())
        || contains_seq(key_lower.as_slice(), chars_of("error").as_slice())
        || markdown_content.is_some();
    let status = (if failed {
        TestStatus::Failed
    } else {
        TestStatus::Passed
    });
    let error_message: Option<String> = (if failed {
        match &markdown_content {
            Some(md) => extract_first_line(md.as_str()),
            None => None,
        }
    } else {
        None
    });
    let name = format_test_name(folder_name.as_str());
    Ok(
        TestCase {
            id: folder_name.clone(),
            name,
            status,
            markdown_content,
            screenshots,
            video,
            trace_file,
            duration_ms: None,
            error_message,
        },
    )
}

/// Index of the group keyed by `key`, if any.
pub open spec fn find_group(gs: Seq<(Seq<char>, Seq<Seq<char>>)>, key: Seq<char>) -> Option<int>
    decreases gs.len(),
{
    if gs.len() == 0 {
        None
    } else if gs[0].0 == key {
        Some(0)
    } else {
        match find_group(gs.drop_first(), key) {
            None => None,
            Some(i) => Some(i + 1),
        }
    }
}

/// Appends a path to its group, creating the group at the end on first
/// encounter.
pub open spec fn add_to_groups(
    gs: Seq<(Seq<char>, Seq<Seq<char>>)>,
    key: Seq<char>,
    path: Seq<char>,
) -> Seq<(Seq<char>, Seq<Seq<char>>)> {
    match find_group(gs, key) {
        Some(j) => gs.update(j, (key, gs[j].1.push(path))),
        None => gs.push((key, seq![path])),
    }
}

/// An entry the grouping ignores: a directory marker, anything under
/// `__MACOSX`, a dot-underscore resource fork, or a path without a
/// usable first segment.
pub open spec fn skipped_entry(bytes: Seq<u8>, l: Seq<Seq<char>>, i: int) -> bool {
    zip_entry_is_dir(bytes, i) || starts_with_spec(l[i], "__MACOSX"@) || starts_with_spec(
        l[i],
        "._"@,
    ) || folder_name_spec(l[i]) is None
}

/// The groups after the first `n` entries, keyed by first path segment,
/// in first-encounter order.
pub open spec fn groups_prefix(bytes: Seq<u8>, l: Seq<Seq<char>>, n: int) -> Seq<
    (Seq<char>, Seq<Seq<char>>),
>
    decreases n,
{
    if n <= 0 {
        Seq::empty()
    } else {
        let g = groups_prefix(bytes, l, n - 1);
        if skipped_entry(bytes, l, n - 1) {
            g
        } else {
            add_to_groups(g, folder_name_spec(l[n - 1])->Some_0, l[n - 1])
        }
    }
}

/// The records of the first `n` groups, in group order, with spoiled
/// folders dropped.
pub open spec fn cases_prefix(
    bytes: Seq<u8>,
    gs: Seq<(Seq<char>, Seq<Seq<char>>)>,
    n: int,
) -> Seq<TestCaseRep>
    decreases n,
{
    if n <= 0 {
        Seq::empty()
    } else {
        cases_prefix(bytes, gs, n - 1) + (match case_of_folder(
            bytes,
            gs[n - 1].0,
            gs[n - 1].1,
        ) {
            None => Seq::empty(),
            Some(c) => seq![c],
        })
    }
}

/// What loading a test-case bundle returns: `None` only where the
/// container is malformed or some entry refuses to open during
/// enumeration.
pub open spec fn load_cases_spec(bytes: Seq<u8>) -> Option<Seq<TestCaseRep>> {
    match zip_entry_list(bytes) {
        None => None,
        Some(l) => {
            if !all_entries_readable(bytes, l.len() as int) {
                None
            } else {
                let gs = groups_prefix(bytes, l, l.len() as int);
                Some(cases_prefix(bytes, gs, gs.len() as int))
            }
        },
    }
}

proof fn lemma_find_group(gs: Seq<(Seq<char>, Seq<Seq<char>>)>, key: Seq<char>)
    ensures
        match find_group(gs, key) {
            Some(i) => 0 <= i < gs.len() && gs[i].0 == key,
            None => true,
        },
    decreases gs.len(),
{
    if gs.len() > 0 && gs[0].0 != key {
        lemma_find_group(gs.drop_first(), key);
    }
}

fn find_group_idx(groups: &Vec<(String, Vec<String>)>, key: &String) -> (r: Option<usize>)
    ensures
        match r {
            Some(i) => find_group(groups.deep_view(), key@) == Some(i as int) && i
                < groups@.len(),
            None => find_group(groups.deep_view(), key@) is None,
        },
{
    let ghost gg = groups.deep_view();
    proof {
        assert(gg.skip(0) =~= gg);
    }
    let mut i: usize = 0;
    while i < groups.len()
        invariant
            i <= groups@.len(),
            gg == groups.deep_view(),
            gg.len() == groups@.len(),
            find_group(gg, key@) == (match find_group(gg.skip(i as int), key@) {
                None => None::<int>,
                Some(k) => Some(k + i),
            }),
        decreases groups@.len() - i,
    {
        proof {
            assert(gg.skip(i as int)[0] == gg[i as int]);
            assert(gg[i as int].0 == groups@[i as int].0@);
        }
        if groups[i].0.eq(key) {
            return Some(i);
        }
        proof {
            assert(gg.skip(i as int).drop_first() =~= gg.skip(i + 1));
        }
        i += 1;
    }
    proof {
        assert(gg.skip(i as int) =~= Seq::<(Seq<char>, Seq<Seq<char>>)>::empty());
    }
    None
}

/// Loads the test cases of a folder-per-test archive, exactly as
/// `load_cases_spec` describes: entries grouped by first path segment
/// in first-encounter order, one record per folder that loads, spoiled
/// folders dropped, and an error only for a malformed container — an
/// archive with no entries yields an empty collection.
pub fn load_test_cases_from_zip(bytes: &[u8]) -> (r: Result<TestCaseCollection, TestCaseLoadError>)
    ensures
        match r {
            Ok(c) => load_cases_spec(bytes@) == Some(c@.test_cases),
            Err(e) => load_cases_spec(bytes@) is None && e is ZipError,
        },
{
    let entries = (match archive_entries(bytes) {
        Ok(v) => v,
        Err(f) => {
            return Err(case_fault(f));
        },
    });
    let ghost l = zip_entry_list(bytes@)->Some_0;
    let macos_prefix = chars_of("__MACOSX");
    let dot_prefix = chars_of("._");
    let mut groups: Vec<(String, Vec<String>)> = Vec::new();
    proof {
        assert(groups.deep_view() =~~= groups_prefix(bytes@, l, 0));
    }
    let mut i: usize = 0;
    while i < entries.len()
        invariant
            i <= entries@.len(),
            zip_entry_list(bytes@) == Some(l),
            entries@.len() == l.len(),
            forall|k: int|
                0 <= k < l.len() ==> (#[trigger] entries@[k]).0@ == l[k] && entries@[k].1
                    == zip_entry_is_dir(bytes@, k),
            macos_prefix@ == "__MACOSX"@,
            dot_prefix@ == "._"@,
            groups.deep_view() == groups_prefix(bytes@, l, i as int),
        decreases entries@.len() - i,
    {
        let ghost before = groups.deep_view();
        let is_dir = entries[i].1;
        let name_chars = chars_of(entries[i].0.as_str());
        if is_dir || starts_with(name_chars.as_slice(), macos_prefix.as_slice())
            || starts_with(name_chars.as_slice(), dot_prefix.as_slice()) {
            proof {
                assert(skipped_entry(bytes@, l, i as int));
                assert(groups.deep_view() =~~= groups_prefix(bytes@, l, i + 1));
            }
        } else {
            match extract_folder_name(entries[i].0.as_str()) {
                None => {
                    proof {
                        assert(skipped_entry(bytes@, l, i as int));
                        assert(groups.deep_view() =~~= groups_prefix(bytes@, l, i + 1));
                    }
                },
                Some(folder) => {
                    proof {
                        assert(!skipped_entry(bytes@, l, i as int));
                    }
                    let path = entries[i].0.clone();
                    let fidx = find_group_idx(&groups, &folder);
                    if let Some(gi) = fidx {
                        let mut g = groups.remove(gi);
                        let ghost gg = g.deep_view();
                        let ghost gmid = groups.deep_view();
                        g.1.push(path);
                        groups.insert(gi, g);
                        proof {
                            lemma_find_group(before, folder@);
                            assert(before[gi as int].0 == folder@);
                            assert(gg == before[gi as int]);
                            assert(gmid =~~= before.remove(gi as int));
                            assert(groups.deep_view() =~~= before.update(
                                gi as int,
                                (before[gi as int].0, before[gi as int].1.push(
                                    l[i as int],
                                )),
                            ));
                            assert(groups.deep_view() =~~= add_to_groups(
                                before,
                                folder@,
                                l[i as int],
                            ));
                            assert(groups.deep_view() =~~= groups_prefix(bytes@, l, i + 1));
                        }
                    } else {
                        let mut paths: Vec<String> = Vec::new();
                        paths.push(path);
                        proof {
                            assert(paths.deep_view() =~= seq![l[i as int]]);
                        }
                        groups.push((folder, paths));
                        proof {
                            assert(groups.deep_view() =~~= before.push(
                                (folder@, seq![l[i as int]]),
                            ));
                            assert(groups.deep_view() =~~= add_to_groups(
                                before,
                                folder@,
                                l[i as int],
                            ));
                            assert(groups.deep_view() =~~= groups_prefix(bytes@, l, i + 1));
                        }
                    }
                },
            }
        }
        i += 1;
    }
    proof {
        assert(groups_prefix(bytes@, l, l.len() as int) == groups.deep_view());
    }
    let ghost ggroups = groups.deep_view();
    let mut test_cases: Vec<TestCase> = Vec::new();
    proof {
        assert(test_cases.deep_view() =~= cases_prefix(bytes@, ggroups, 0));
    }
    let mut gi: usize = 0;
    while gi < groups.len()
        invariant
            gi <= groups@.len(),
            ggroups == groups.deep_view(),
            ggroups.len() == groups@.len(),
            zip_entry_list(bytes@) == Some(l),
            groups_prefix(bytes@, l, l.len() as int) == ggroups,
            test_cases.deep_view() == cases_prefix(bytes@, ggroups, gi as int),
        decreases groups@.len() - gi,
    {
        proof {
            assert(ggroups[gi as int] == (groups@[gi as int].0@, groups@[
                gi as int
            ].1.deep_view()));
        }
        let ghost before = test_cases.deep_view();
        match load_test_case_from_folder(bytes, &groups[gi].0, &groups[gi].1) {
            Ok(tc) => {
                test_cases.push(tc);
                proof {
                    assert(test_cases.deep_view() =~= before.push(tc@));
                    assert(before + seq![tc@] =~= before.push(tc@));
                }
            },
            Err(_) => {
                proof {
                    assert(before + Seq::<TestCaseRep>::empty() =~= before);
                }
            },
        }
        gi += 1;
    }
    proof {
        assert(cases_prefix(bytes@, ggroups, ggroups.len() as int)
            == test_cases.deep_view());
    }
    Ok(TestCaseCollection { test_cases })
}

} // verus!


