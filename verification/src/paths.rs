//! File paths in the text of an agent: which of them are files to hand to the
//! user.

use vstd::prelude::*;
use vstd::string::*;

use crate::split;
use crate::text;
use crate::types;
use crate::types::{Attachment, AttachmentKind};

verus! {

/// An absolute path of a known directory starts at position `i`.
pub open spec fn path_starts(t: Seq<char>, i: int) -> bool {
    ||| text::occurs_at(t, "/tmp/"@, i)
    ||| text::occurs_at(t, "/home/"@, i)
    ||| text::occurs_at(t, "/var/"@, i)
    ||| text::occurs_at(t, "/opt/"@, i)
    ||| text::occurs_at(t, "/srv/"@, i)
    ||| text::occurs_at(t, "/root/"@, i)
    ||| text::occurs_at(t, "/data/"@, i)
    ||| text::occurs_at(t, "/mnt/"@, i)
    ||| text::occurs_at(t, "/usr/"@, i)
}

/// A character that no path goes beyond.
pub open spec fn ends_path(c: char) -> bool {
    c == ' ' || c == '\n' || c == '\r' || c == '\t' || c == '"' || c == '\'' || c == ')' || c == ']'
        || c == '}' || c == '>' || c == '`' || c == '\0'
}

/// How many characters stand before the first one that ends a path.
pub open spec fn path_length(s: Seq<char>) -> int
    decreases s.len(),
{
    if s.len() == 0 || ends_path(s[0]) {
        0
    } else {
        1 + path_length(s.drop_first())
    }
}

/// The first position at or after `i` where a path starts, or the end.
pub open spec fn next_path(t: Seq<char>, i: int) -> int
    decreases t.len() - i,
{
    if i >= t.len() {
        t.len() as int
    } else if path_starts(t, i) {
        i
    } else {
        next_path(t, i + 1)
    }
}

/// A candidate without the punctuation behind it counts if it is longer than a
/// directory name and has a dot in it.
pub open spec fn candidate(s: Seq<char>) -> Seq<Seq<char>> {
    let c = text::strip_back(s, seq!['.', ',', ';']);
    if split::byte_len(c) > 5 && c.contains('.') {
        seq![c]
    } else {
        Seq::empty()
    }
}

pub proof fn lemma_next_path(t: Seq<char>, i: int)
    ensures
        i <= t.len() ==> i <= next_path(t, i) <= t.len(),
        next_path(t, i) < t.len() ==> path_starts(t, next_path(t, i)),
    decreases t.len() - i,
{
    if i < t.len() && !path_starts(t, i) {
        lemma_next_path(t, i + 1);
    }
}

proof fn lemma_path_length(s: Seq<char>)
    ensures
        0 <= path_length(s) <= s.len(),
    decreases s.len(),
{
    if s.len() > 0 && !ends_path(s[0]) {
        lemma_path_length(s.drop_first());
    }
}

pub proof fn lemma_path_progress(t: Seq<char>, i: int)
    requires
        path_starts(t, i),
    ensures
        0 <= i < t.len(),
        t[i] == '/',
        path_length(t.skip(i)) >= 1,
        i + path_length(t.skip(i)) <= t.len(),
{
    reveal_strlit("/tmp/");
    reveal_strlit("/home/");
    reveal_strlit("/var/");
    reveal_strlit("/opt/");
    reveal_strlit("/srv/");
    reveal_strlit("/root/");
    reveal_strlit("/data/");
    reveal_strlit("/mnt/");
    reveal_strlit("/usr/");
    assert forall|p: Seq<char>| text::occurs_at(t, p, i) && p.len() > 0 implies t[i] == p[0] by {
        assert(t.subrange(i, i + p.len())[0] == p[0]);
    }
    assert(t.skip(i)[0] == t[i]);
    lemma_path_length(t.skip(i).drop_first());
    lemma_path_length(t.skip(i));
}

/// The absolute paths in a text from position `i` on, in order.
pub open spec fn paths_from(t: Seq<char>, i: int) -> Seq<Seq<char>>
    decreases t.len() - i,
{
    let start = next_path(t, i);
    if i < 0 || start >= t.len() {
        Seq::empty()
    } else {
        proof {
            lemma_next_path(t, i);
            lemma_path_progress(t, start);
        }
        let n = path_length(t.skip(start));
        candidate(t.subrange(start, start + n)) + paths_from(t, start + n)
    }
}

fn starts_path(v: &Vec<char>, i: usize) -> (r: bool)
    requires
        i <= v@.len(),
    ensures
        r == path_starts(v@, i as int),
{
    text::matches_at(v, &text::chars_of("/tmp/"), i) || text::matches_at(
        v,
        &text::chars_of("/home/"),
        i,
    ) || text::matches_at(v, &text::chars_of("/var/"), i) || text::matches_at(
        v,
        &text::chars_of("/opt/"),
        i,
    ) || text::matches_at(v, &text::chars_of("/srv/"), i) || text::matches_at(
        v,
        &text::chars_of("/root/"),
        i,
    ) || text::matches_at(v, &text::chars_of("/data/"), i) || text::matches_at(
        v,
        &text::chars_of("/mnt/"),
        i,
    ) || text::matches_at(v, &text::chars_of("/usr/"), i)
}

fn stops_path(c: char) -> (r: bool)
    ensures
        r == ends_path(c),
{
    c == ' ' || c == '\n' || c == '\r' || c == '\t' || c == '"' || c == '\'' || c == ')' || c == ']'
        || c == '}' || c == '>' || c == '`' || c == '\0'
}

fn path_end(v: &Vec<char>, start: usize) -> (r: usize)
    requires
        start <= v@.len(),
    ensures
        start <= r <= v@.len(),
        r - start == path_length(v@.skip(start as int)),
{
    let n: usize = v.len();
    let mut i: usize = start;
    while i < n
        invariant
            start <= i <= n == v@.len(),
            i - start + path_length(v@.skip(i as int)) == path_length(v@.skip(start as int)),
        decreases n - i,
    {
        assert(v@.skip(i as int)[0] == v@[i as int]);
        if stops_path(v[i]) {
            return i;
        }
        assert(v@.skip(i as int).drop_first() =~= v@.skip(i + 1));
        i = i + 1;
    }
    i
}

/// The absolute paths in a text, in order.
pub fn find_absolute_paths(text: &str) -> (r: Vec<String>)
    ensures
        text::texts(r@) == paths_from(text@, 0),
{
    let v: Vec<char> = text::chars_of(text);
    let n: usize = v.len();
    let marks: Vec<char> = text::chars_of(".,;");
    proof {
        reveal_strlit(".,;");
        assert(marks@ =~= seq!['.', ',', ';']);
    }
    let mut out: Vec<String> = Vec::new();
    let mut i: usize = 0;
    assert(text::texts(out@) + paths_from(v@, 0) =~= paths_from(text@, 0));
    while i < n
        invariant
            i <= n == v@.len(),
            v@ == text@,
            marks@ == seq!['.', ',', ';'],
            text::texts(out@) + paths_from(v@, i as int) == paths_from(text@, 0),
        decreases n - i,
    {
        if starts_path(&v, i) {
            proof {
                lemma_path_progress(v@, i as int);
            }
            let end: usize = path_end(&v, i);
            let raw: String = text::string_of(&v, i, end);
            let found: String = text::stripped_back(raw.as_str(), &marks);
            let ghost before = text::texts(out@);
            let ghost tail = paths_from(v@, end as int);
            let ghost c = found@;
            if split::bytes_reach(found.as_str(), 6) && text::has_char(found.as_str(), '.') {
                out.push(found);
                assert(text::texts(out@) =~= before + seq![c]);
            } else {
                assert(text::texts(out@) =~= before + Seq::<Seq<char>>::empty());
            }
            assert(text::texts(out@) + tail =~= before + (candidate(raw@) + tail));
            i = end;
        } else {
            assert(paths_from(v@, i as int) =~= paths_from(v@, i + 1));
            i = i + 1;
        }
    }
    assert(text::texts(out@) =~= text::texts(out@) + paths_from(v@, i as int));
    out
}

// ── Kinds of files ──────────────────────────────────────────────────────

/// What a file extension says of a file; none where it is not one to hand out.
pub open spec fn mime_of(ext: Seq<char>) -> Option<(AttachmentKind, Seq<char>)> {
    if ext == "xlsx"@ {
        Some(
            (
                AttachmentKind::File,
                "application/vnd.openxmlformats-officedocument.spreadsheetml.sheet"@,
            ),
        )
    } else if ext == "xls"@ {
        Some((AttachmentKind::File, "application/vnd.ms-excel"@))
    } else if ext == "csv"@ {
        Some((AttachmentKind::File, "text/csv"@))
    } else if ext == "pdf"@ {
        Some((AttachmentKind::File, "application/pdf"@))
    } else if ext == "docx"@ {
        Some(
            (
                AttachmentKind::File,
                "application/vnd.openxmlformats-officedocument.wordprocessingml.document"@,
            ),
        )
    } else if ext == "doc"@ {
        Some((AttachmentKind::File, "application/msword"@))
    } else if ext == "pptx"@ {
        Some(
            (
                AttachmentKind::File,
                "application/vnd.openxmlformats-officedocument.presentationml.presentation"@,
            ),
        )
    } else if ext == "txt"@ {
        Some((AttachmentKind::File, "text/plain"@))
    } else if ext == "json"@ {
        Some((AttachmentKind::File, "application/json"@))
    } else if ext == "xml"@ {
        Some((AttachmentKind::File, "application/xml"@))
    } else if ext == "html"@ || ext == "htm"@ {
        Some((AttachmentKind::File, "text/html"@))
    } else if ext == "zip"@ {
        Some((AttachmentKind::File, "application/zip"@))
    } else if ext == "tar"@ {
        Some((AttachmentKind::File, "application/x-tar"@))
    } else if ext == "gz"@ || ext == "tgz"@ {
        Some((AttachmentKind::File, "application/gzip"@))
    } else if ext == "png"@ {
        Some((AttachmentKind::Image, "image/png"@))
    } else if ext == "jpg"@ || ext == "jpeg"@ {
        Some((AttachmentKind::Image, "image/jpeg"@))
    } else if ext == "gif"@ {
        Some((AttachmentKind::Image, "image/gif"@))
    } else if ext == "svg"@ {
        Some((AttachmentKind::Image, "image/svg+xml"@))
    } else if ext == "webp"@ {
        Some((AttachmentKind::Image, "image/webp"@))
    } else if ext == "parquet"@ {
        Some((AttachmentKind::File, "application/octet-stream"@))
    } else if ext == "sqlite"@ || ext == "db"@ {
        Some((AttachmentKind::File, "application/x-sqlite3"@))
    } else {
        None
    }
}

/// What a file extension says of a file; none where it is not one to hand out.
pub fn mime_for_ext(ext: &str) -> (r: Option<(AttachmentKind, String)>)
    ensures
        match r {
            Some((k, m)) => mime_of(ext@) == Some((k, m@)),
            None => mime_of(ext@) is None,
        },
{
    let file: AttachmentKind = AttachmentKind::File;
    let image: AttachmentKind = AttachmentKind::Image;
    let found: (AttachmentKind, &str) = if text::same(ext, "xlsx") {
        (file, "application/vnd.openxmlformats-officedocument.spreadsheetml.sheet")
    } else if text::same(ext, "xls") {
        (file, "application/vnd.ms-excel")
    } else if text::same(ext, "csv") {
        (file, "text/csv")
    } else if text::same(ext, "pdf") {
        (file, "application/pdf")
    } else if text::same(ext, "docx") {
        (file, "application/vnd.openxmlformats-officedocument.wordprocessingml.document")
    } else if text::same(ext, "doc") {
        (file, "application/msword")
    } else if text::same(ext, "pptx") {
        (file, "application/vnd.openxmlformats-officedocument.presentationml.presentation")
    } else if text::same(ext, "txt") {
        (file, "text/plain")
    } else if text::same(ext, "json") {
        (file, "application/json")
    } else if text::same(ext, "xml") {
        (file, "application/xml")
    } else if text::same(ext, "html") || text::same(ext, "htm") {
        (file, "text/html")
    } else if text::same(ext, "zip") {
        (file, "application/zip")
    } else if text::same(ext, "tar") {
        (file, "application/x-tar")
    } else if text::same(ext, "gz") || text::same(ext, "tgz") {
        (file, "application/gzip")
    } else if text::same(ext, "png") {
        (image, "image/png")
    } else if text::same(ext, "jpg") || text::same(ext, "jpeg") {
        (image, "image/jpeg")
    } else if text::same(ext, "gif") {
        (image, "image/gif")
    } else if text::same(ext, "svg") {
        (image, "image/svg+xml")
    } else if text::same(ext, "webp") {
        (image, "image/webp")
    } else if text::same(ext, "parquet") {
        (file, "application/octet-stream")
    } else if text::same(ext, "sqlite") || text::same(ext, "db") {
        (file, "application/x-sqlite3")
    } else {
        return None;
    };
    Some((found.0, found.1.to_string()))
}

/// What follows the last `c`, all where there is none.
pub open spec fn after_last(s: Seq<char>, c: char) -> Seq<char>
    decreases s.len(),
{
    if s.len() == 0 || s.last() == c {
        Seq::empty()
    } else {
        after_last(s.drop_last(), c).push(s.last())
    }
}

/// The file name of a path.
pub open spec fn file_name(path: Seq<char>) -> Seq<char> {
    after_last(path, '/')
}

/// The extension of a file name; none where there is no dot but a leading one.
pub open spec fn extension(name: Seq<char>) -> Option<Seq<char>> {
    let ext = after_last(name, '.');
    if ext.len() + 1 >= name.len() {
        None
    } else {
        Some(ext)
    }
}

proof fn lemma_after_last(s: Seq<char>, c: char)
    ensures
        after_last(s, c).len() <= s.len(),
    decreases s.len(),
{
    if s.len() > 0 && s.last() != c {
        lemma_after_last(s.drop_last(), c);
    }
}

pub(crate) fn tail_after(s: &str, c: char) -> (r: String)
    ensures
        r@ == after_last(s@, c),
        r@.len() <= s@.len(),
{
    let v: Vec<char> = text::chars_of(s);
    let n: usize = v.len();
    let mut i: usize = n;
    assert(v@.take(n as int) =~= v@);
    assert(v@.subrange(n as int, n as int) =~= Seq::<char>::empty());
    assert(after_last(v@, c) =~= after_last(v@.take(i as int), c) + v@.subrange(
        i as int,
        n as int,
    ));
    while i > 0 && v[i - 1] != c
        invariant
            i <= n == v@.len(),
            after_last(v@, c) == after_last(v@.take(i as int), c) + v@.subrange(
                i as int,
                n as int,
            ),
        decreases i,
    {
        let ghost head = v@.take(i as int);
        assert(head.drop_last() =~= v@.take(i - 1));
        i = i - 1;
        assert(after_last(head, c) + v@.subrange(i + 1, n as int) =~= after_last(
            v@.take(i as int),
            c,
        ) + v@.subrange(i as int, n as int));
    }
    assert(after_last(v@.take(i as int), c).len() == 0);
    assert(after_last(v@, c) =~= v@.subrange(i as int, n as int));
    text::string_of(&v, i, n)
}

/// What is known of a file on disk.
#[derive(Debug, PartialEq, Eq)]
pub struct FileFact {
    pub path: String,
    pub bytes: Option<u64>,
}

/// The first of the known files with that path.
pub open spec fn file_at(files: Seq<FileFact>, path: Seq<char>) -> Option<FileFact>
    decreases files.len(),
{
    if files.len() == 0 {
        None
    } else if files[0].path@ == path {
        Some(files[0])
    } else {
        file_at(files.drop_first(), path)
    }
}

/// The file to hand out for a path; none where there is no such file or its
/// kind is not one to hand out.
pub open spec fn attachment_at(files: Seq<FileFact>, path: Seq<char>) -> Option<
    types::AttachmentView,
> {
    match (file_at(files, path), extension(file_name(path))) {
        (Some(f), Some(ext)) => match mime_of(text::lower_ascii(ext)) {
            Some((kind, mime)) => Some(
                types::AttachmentView {
                    kind,
                    path,
                    mime,
                    bytes: f.bytes,
                    name: Some(file_name(path)),
                },
            ),
            None => None,
        },
        _ => None,
    }
}

/// The files to hand out for a list of paths, each path once.
pub open spec fn attachments_at(files: Seq<FileFact>, paths: Seq<Seq<char>>) -> Seq<
    types::AttachmentView,
>
    decreases paths.len(),
{
    if paths.len() == 0 {
        Seq::empty()
    } else {
        let head = attachments_at(files, paths.drop_last());
        match attachment_at(files, paths.last()) {
            Some(a) => if paths.drop_last().contains(paths.last()) {
                head
            } else {
                head.push(a)
            },
            None => head,
        }
    }
}

fn lookup_file(files: &Vec<FileFact>, path: &str) -> (r: Option<usize>)
    ensures
        match r {
            Some(i) => i < files@.len() && file_at(files@, path@) == Some(files@[i as int]),
            None => file_at(files@, path@) is None,
        },
{
    let mut i: usize = 0;
    assert(files@.skip(0) =~= files@);
    while i < files.len()
        invariant
            i <= files@.len(),
            file_at(files@, path@) == file_at(files@.skip(i as int), path@),
        decreases files@.len() - i,
    {
        assert(files@.skip(i as int)[0] == files@[i as int]);
        if text::same(files[i].path.as_str(), path) {
            return Some(i);
        }
        assert(files@.skip(i as int).drop_first() =~= files@.skip(i + 1));
        i = i + 1;
    }
    None
}

fn attachment_for(files: &Vec<FileFact>, path: &str) -> (r: Option<Attachment>)
    ensures
        match r {
            Some(a) => attachment_at(files@, path@) == Some(a@),
            None => attachment_at(files@, path@) is None,
        },
{
    let at: usize = match lookup_file(files, path) {
        Some(i) => i,
        None => {
            return None;
        },
    };
    let name: String = tail_after(path, '/');
    let ext: String = tail_after(name.as_str(), '.');
    if name.as_str().unicode_len() - ext.as_str().unicode_len() <= 1 {
        return None;
    }
    match mime_for_ext(text::lowered(ext.as_str()).as_str()) {
        Some((kind, mime)) => Some(
            Attachment {
                kind,
                path: path.to_string(),
                mime,
                bytes: files[at].bytes,
                name: Some(name),
            },
        ),
        None => None,
    }
}

/// The views of a list of attachments.
pub open spec fn attachment_views(v: Seq<Attachment>) -> Seq<
    types::AttachmentView,
> {
    Seq::new(v.len(), |i: int| v[i]@)
}

/// The files that a text hands to the user: the paths in it that are known
/// files of a kind to hand out, each once, in order.
pub fn extract_file_attachments(text: &str, files: &Vec<FileFact>) -> (r: Vec<Attachment>)
    ensures
        attachment_views(r@) == attachments_at(files@, paths_from(text@, 0)),
{
    let paths: Vec<String> = find_absolute_paths(text);
    let ghost all = text::texts(paths@);
    let mut out: Vec<Attachment> = Vec::new();
    let mut seen: Vec<String> = Vec::new();
    let mut i: usize = 0;
    assert(attachment_views(out@) =~= attachments_at(files@, all.take(0)));
    assert(text::texts(seen@) =~= all.take(0));
    while i < paths.len()
        invariant
            i <= paths@.len(),
            all == text::texts(paths@),
            text::texts(seen@) == all.take(i as int),
            attachment_views(out@) == attachments_at(files@, all.take(i as int)),
        decreases paths@.len() - i,
    {
        assert(all.take(i + 1).drop_last() =~= all.take(i as int));
        assert(all.take(i + 1).last() == paths@[i as int]@);
        let again: bool = crate::engine::listed(&seen, paths[i].as_str());
        match attachment_for(files, paths[i].as_str()) {
            Some(a) => {
                if !again {
                    let ghost before = out@;
                    let ghost view = a@;
                    out.push(a);
                    assert(attachment_views(out@) =~= attachment_views(before).push(view));
                }
            },
            None => {},
        }
        let ghost seen_before = seen@;
        seen.push(paths[i].clone());
        assert(text::texts(seen@) =~= text::texts(seen_before).push(paths@[i as int]@));
        assert(all.take(i + 1) =~= all.take(i as int).push(all[i as int]));
        i = i + 1;
    }
    assert(all.take(i as int) =~= all);
    out
}

/// Only known files are handed out, under paths that the text names, and none
/// of them twice.
pub proof fn only_named_files_are_handed_out(files: Seq<FileFact>, paths: Seq<Seq<char>>)
    ensures
        forall|i: int|
            0 <= i < attachments_at(files, paths).len() ==> paths.contains(
                (#[trigger] attachments_at(files, paths)[i]).path,
            ) && file_at(files, attachments_at(files, paths)[i].path) is Some,
        forall|i: int, j: int|
            0 <= i < j < attachments_at(files, paths).len() ==> (#[trigger] attachments_at(
                files,
                paths,
            )[i]).path != (#[trigger] attachments_at(files, paths)[j]).path,
    decreases paths.len(),
{
    if paths.len() > 0 {
        let front = paths.drop_last();
        let head = attachments_at(files, front);
        let all = attachments_at(files, paths);
        only_named_files_are_handed_out(files, front);
        assert forall|p: Seq<char>| #[trigger] front.contains(p) implies paths.contains(p) by {
            let k = choose|k: int| 0 <= k < front.len() && front[k] == p;
            assert(paths[k] == p);
        }
        assert(paths[paths.len() - 1] == paths.last());
        assert forall|i: int| 0 <= i < all.len() implies paths.contains((#[trigger] all[i]).path)
            && file_at(files, all[i].path) is Some by {
            if i < head.len() {
                assert(all[i] == head[i]);
            }
        }
        assert forall|i: int, j: int| 0 <= i < j < all.len() implies (#[trigger] all[i]).path != (
        #[trigger] all[j]).path by {
            assert(all[i] == head[i]);
            if j < head.len() {
                assert(all[j] == head[j]);
            }
        }
    }
}

/// The name that a file is sent under: its own name if it has one, or else the
/// last part of its path.
pub open spec fn sent_name(a: types::AttachmentView) -> Seq<char> {
    match a.name {
        Some(n) => n,
        None => file_name(a.path),
    }
}

/// The name that a file is sent under.
pub fn attachment_name(a: &Attachment) -> (r: String)
    ensures
        r@ == sent_name(a@),
{
    match &a.name {
        Some(n) => n.clone(),
        None => tail_after(a.path.as_str(), '/'),
    }
}

// ── Laws ────────────────────────────────────────────────────────────────

proof fn lemma_after_last_is(front: Seq<char>, tail: Seq<char>, c: char)
    requires
        !tail.contains(c),
        front.len() == 0 || front.last() == c,
    ensures
        after_last(front + tail, c) == tail,
    decreases tail.len(),
{
    let s = front + tail;
    if tail.len() == 0 {
        assert(s =~= front);
        assert(after_last(s, c) =~= tail);
    } else {
        let t = tail.drop_last();
        assert(s.drop_last() =~= front + t);
        assert(s.last() == tail.last());
        assert(tail[tail.len() - 1] == tail.last());
        assert forall|i: int| 0 <= i < t.len() implies t[i] != c by {
            assert(t[i] == tail[i]);
        }
        lemma_after_last_is(front, t, c);
        assert(t.push(tail.last()) =~= tail);
    }
}

/// The name of a file is what stands behind the last slash, and its extension what
/// stands behind the last dot of the name, unless the name starts with it.
pub proof fn names_and_extensions_are_the_ends(dir: Seq<char>, stem: Seq<char>, ext: Seq<char>)
    requires
        stem.len() > 0,
        ext.len() > 0,
        !stem.contains('/'),
        !ext.contains('/'),
        !ext.contains('.'),
    ensures
        file_name(dir + "/"@ + stem + "."@ + ext) == stem + "."@ + ext,
        extension(stem + "."@ + ext) == Some(ext),
        extension("."@ + ext) is None,
        extension(ext) is None,
{
    reveal_strlit("/");
    reveal_strlit(".");
    let name = stem + "."@ + ext;
    assert forall|i: int| 0 <= i < name.len() implies name[i] != '/' by {
        if i < stem.len() {
            assert(name[i] == stem[i]);
        } else if i > stem.len() {
            assert(name[i] == ext[i - stem.len() - 1]);
        }
    }
    lemma_after_last_is(dir + "/"@, name, '/');
    assert(dir + "/"@ + stem + "."@ + ext =~= (dir + "/"@) + name);
    lemma_after_last_is(stem + "."@, ext, '.');
    lemma_after_last_is("."@, ext, '.');
    lemma_after_last_is(Seq::empty(), ext, '.');
    assert(Seq::<char>::empty() + ext =~= ext);
}

proof fn lemma_path_length_is(path: Seq<char>, rest: Seq<char>)
    requires
        forall|i: int| 0 <= i < path.len() ==> !ends_path(#[trigger] path[i]),
        rest.len() == 0 || ends_path(rest[0]),
    ensures
        path_length(path + rest) == path.len(),
    decreases path.len(),
{
    let s = path + rest;
    if path.len() == 0 {
        assert(s =~= rest);
    } else {
        let p = path.drop_first();
        assert(s[0] == path[0]);
        assert(s.drop_first() =~= p + rest);
        assert forall|i: int| 0 <= i < p.len() implies !ends_path(#[trigger] p[i]) by {
            assert(p[i] == path[i + 1]);
        }
        lemma_path_length_is(p, rest);
    }
}

proof fn lemma_roots()
    ensures
        forall|t: Seq<char>, i: int| #[trigger]
            path_starts(t, i) ==> 0 <= i < t.len() && t[i] == '/',
{
    reveal_strlit("/tmp/");
    reveal_strlit("/home/");
    reveal_strlit("/var/");
    reveal_strlit("/opt/");
    reveal_strlit("/srv/");
    reveal_strlit("/root/");
    reveal_strlit("/data/");
    reveal_strlit("/mnt/");
    reveal_strlit("/usr/");
    assert forall|t: Seq<char>, i: int| #[trigger] path_starts(t, i) implies 0 <= i < t.len()
        && t[i] == '/' by {
        assert(text::occurs_at(t, "/tmp/"@, i) ==> t.subrange(i, i + 5)[0] == '/');
        assert(text::occurs_at(t, "/home/"@, i) ==> t.subrange(i, i + 6)[0] == '/');
        assert(text::occurs_at(t, "/var/"@, i) ==> t.subrange(i, i + 5)[0] == '/');
        assert(text::occurs_at(t, "/opt/"@, i) ==> t.subrange(i, i + 5)[0] == '/');
        assert(text::occurs_at(t, "/srv/"@, i) ==> t.subrange(i, i + 5)[0] == '/');
        assert(text::occurs_at(t, "/root/"@, i) ==> t.subrange(i, i + 6)[0] == '/');
        assert(text::occurs_at(t, "/data/"@, i) ==> t.subrange(i, i + 6)[0] == '/');
        assert(text::occurs_at(t, "/mnt/"@, i) ==> t.subrange(i, i + 5)[0] == '/');
        assert(text::occurs_at(t, "/usr/"@, i) ==> t.subrange(i, i + 5)[0] == '/');
    }
}

proof fn lemma_next_path_is(t: Seq<char>, i: int, at: int)
    requires
        0 <= i <= at <= t.len(),
        forall|k: int| i <= k < at ==> t[k] != '/',
        at < t.len() ==> path_starts(t, at),
    ensures
        next_path(t, i) == at,
    decreases at - i,
{
    lemma_roots();
    if i < at {
        assert(!path_starts(t, i));
        lemma_next_path_is(t, i + 1, at);
    }
}

proof fn lemma_stripped(path: Seq<char>, marks: Seq<char>)
    requires
        forall|i: int|
            0 <= i < marks.len() ==> #[trigger] marks[i] == '.' || marks[i] == ',' || marks[i] == ';',
        path.len() > 0,
        path.last() != '.' && path.last() != ',' && path.last() != ';',
    ensures
        text::strip_back(path + marks, seq!['.', ',', ';']) == path,
    decreases marks.len(),
{
    let set = seq!['.', ',', ';'];
    let s = path + marks;
    assert(set[0] == '.' && set[1] == ',' && set[2] == ';');
    if marks.len() == 0 {
        assert(s =~= path);
        assert(!set.contains(path.last()));
    } else {
        let m = marks.drop_last();
        assert(marks[marks.len() - 1] == marks.last());
        assert(s.last() == marks.last());
        assert(set.contains(s.last()));
        assert(s.drop_last() =~= path + m);
        assert forall|i: int| 0 <= i < m.len() implies #[trigger] m[i] == '.' || m[i] == ','
            || m[i] == ';' by {
            assert(m[i] == marks[i]);
        }
        lemma_stripped(path, m);
    }
}

/// A path under one of the known roots is found in a text: it goes on to the next
/// white space, quote or closing bracket, without the punctuation at its end. A text
/// without a slash holds no path.
pub proof fn paths_in_a_text_are_found(
    before: Seq<char>,
    path: Seq<char>,
    marks: Seq<char>,
    rest: Seq<char>,
)
    requires
        !before.contains('/'),
        path_starts(path, 0),
        path.contains('.'),
        split::byte_len(path) > 5,
        forall|i: int| 0 <= i < path.len() ==> !ends_path(#[trigger] path[i]),
        path.last() != '.' && path.last() != ',' && path.last() != ';',
        forall|i: int|
            0 <= i < marks.len() ==> #[trigger] marks[i] == '.' || marks[i] == ',' || marks[i] == ';',
        rest.len() == 0 || ends_path(rest[0]),
    ensures
        ({
            let t = before + path + marks + rest;
            let end = (before.len() + path.len() + marks.len()) as int;
            paths_from(t, 0) == seq![path] + paths_from(t, end)
        }),
        paths_from(before, 0).len() == 0,
{
    let t = before + path + marks + rest;
    let at = before.len() as int;
    let word = path + marks;
    lemma_roots();
    assert(path_starts(t, at)) by {
        lemma_starts_shift(t, path, at, marks + rest, before);
    }
    assert forall|k: int| 0 <= k < at implies t[k] != '/' by {
        assert(t[k] == before[k]);
    }
    lemma_next_path_is(t, 0, at);
    assert(t.skip(at) =~= word + rest);
    assert forall|i: int| 0 <= i < word.len() implies !ends_path(#[trigger] word[i]) by {
        if i < path.len() {
            assert(word[i] == path[i]);
        } else {
            assert(word[i] == marks[i - path.len()]);
        }
    }
    lemma_path_length_is(word, rest);
    assert(t.subrange(at, at + word.len()) =~= word);
    lemma_stripped(path, marks);
    assert(candidate(word) == seq![path]);
    assert forall|k: int| 0 <= k < before.len() implies before[k] != '/' by {}
    lemma_next_path_is(before, 0, before.len() as int);
}

proof fn lemma_starts_shift(
    t: Seq<char>,
    path: Seq<char>,
    at: int,
    more: Seq<char>,
    before: Seq<char>,
)
    requires
        path_starts(path, 0),
        at == before.len(),
        t == before + path + more || t =~= before + path + more,
    ensures
        path_starts(t, at),
{
    assert forall|pat: Seq<char>| #[trigger] text::occurs_at(path, pat, 0) implies text::occurs_at(
        t,
        pat,
        at,
    ) by {
        assert(t.subrange(at, at + pat.len()) =~= path.subrange(0, pat.len() as int));
    }
    assert(text::occurs_at(path, "/tmp/"@, 0) ==> text::occurs_at(t, "/tmp/"@, at));
    assert(text::occurs_at(path, "/home/"@, 0) ==> text::occurs_at(t, "/home/"@, at));
    assert(text::occurs_at(path, "/var/"@, 0) ==> text::occurs_at(t, "/var/"@, at));
    assert(text::occurs_at(path, "/opt/"@, 0) ==> text::occurs_at(t, "/opt/"@, at));
    assert(text::occurs_at(path, "/srv/"@, 0) ==> text::occurs_at(t, "/srv/"@, at));
    assert(text::occurs_at(path, "/root/"@, 0) ==> text::occurs_at(t, "/root/"@, at));
    assert(text::occurs_at(path, "/data/"@, 0) ==> text::occurs_at(t, "/data/"@, at));
    assert(text::occurs_at(path, "/mnt/"@, 0) ==> text::occurs_at(t, "/mnt/"@, at));
    assert(text::occurs_at(path, "/usr/"@, 0) ==> text::occurs_at(t, "/usr/"@, at));
}

/// A file that is there and of a known kind is handed out under its own name, with
/// its size and its type; one that is not there is not.
pub proof fn known_files_are_handed_out(
    files: Seq<FileFact>,
    i: int,
    ext: Seq<char>,
    kind: AttachmentKind,
    mime: Seq<char>,
    path: Seq<char>,
)
    requires
        0 <= i < files.len(),
        forall|k: int| 0 <= k < i ==> (#[trigger] files[k]).path@ != files[i].path@,
        extension(file_name(files[i].path@)) == Some(ext),
        mime_of(text::lower_ascii(ext)) == Some((kind, mime)),
        forall|k: int| 0 <= k < files.len() ==> (#[trigger] files[k]).path@ != path,
    ensures
        attachment_at(files, files[i].path@) == Some(
            types::AttachmentView {
                kind,
                path: files[i].path@,
                mime,
                bytes: files[i].bytes,
                name: Some(file_name(files[i].path@)),
            },
        ),
        attachment_at(files, path) is None,
{
    lemma_file_at(files, i, path);
}

proof fn lemma_file_at(files: Seq<FileFact>, i: int, path: Seq<char>)
    ensures
        0 <= i < files.len() && (forall|k: int|
            0 <= k < i ==> (#[trigger] files[k]).path@ != files[i].path@) ==> file_at(
            files,
            files[i].path@,
        ) == Some(files[i]),
        (forall|k: int| 0 <= k < files.len() ==> (#[trigger] files[k]).path@ != path) ==> file_at(
            files,
            path,
        ) is None,
    decreases files.len(),
{
    if files.len() > 0 {
        let t = files.drop_first();
        lemma_file_at(t, i - 1, path);
        assert forall|k: int| 0 <= k < t.len() implies #[trigger] t[k] == files[k + 1] by {}
        if 0 < i < files.len() && (forall|k: int|
            0 <= k < i ==> (#[trigger] files[k]).path@ != files[i].path@) {
            assert(files[0].path@ != files[i].path@);
            assert(t[i - 1] == files[i]);
            assert forall|k: int| 0 <= k < i - 1 implies (#[trigger] t[k]).path@ != t[i
                - 1].path@ by {
                assert(t[k] == files[k + 1]);
            }
        }
        if forall|k: int| 0 <= k < files.len() ==> (#[trigger] files[k]).path@ != path {
            assert(files[0].path@ != path);
            assert forall|k: int| 0 <= k < t.len() implies (#[trigger] t[k]).path@ != path by {
                assert(t[k] == files[k + 1]);
            }
        }
    }
}

/// Each path is handed out once, behind those of the paths before it.
pub proof fn next_file_comes_last(
    files: Seq<FileFact>,
    paths: Seq<Seq<char>>,
    path: Seq<char>,
    a: types::AttachmentView,
)
    requires
        attachment_at(files, path) == Some(a),
    ensures
        paths.contains(path) ==> attachments_at(files, paths.push(path)) == attachments_at(
            files,
            paths,
        ),
        !paths.contains(path) ==> attachments_at(files, paths.push(path)) == attachments_at(
            files,
            paths,
        ).push(a),
        a.path == path,
        attachments_at(files, Seq::empty()).len() == 0,
{
    assert(paths.push(path).drop_last() =~= paths);
}

/// Images are the files with an image type, and those whose type is named like their
/// extension have that type.
pub proof fn kinds_go_with_types(ext: Seq<char>, kind: AttachmentKind, mime: Seq<char>)
    requires
        mime_of(ext) == Some((kind, mime)),
    ensures
        kind is Image <==> "image/"@.is_prefix_of(mime),
        !(kind is Audio),
        ext == "png"@ || ext == "gif"@ || ext == "webp"@ || ext == "jpeg"@ ==> mime == "image/"@
            + ext,
        ext == "pdf"@ || ext == "json"@ || ext == "xml"@ || ext == "zip"@ ==> mime
            == "application/"@ + ext,
        ext == "csv"@ || ext == "html"@ ==> mime == "text/"@ + ext,
        ext == "txt"@ ==> mime == "text/plain"@,
{
    lemma_extensions();
    lemma_types();
}

/// A file is sent under its name, or else under the name in its path.
pub proof fn files_are_sent_by_name(a: types::AttachmentView, n: Seq<char>)
    ensures
        a.name == Some(n) ==> sent_name(a) == n,
        a.name is None ==> sent_name(a) == file_name(a.path),
{
}

proof fn lemma_extensions()
    ensures
        "xlsx"@.len() == 4 && "xlsx"@[0] == 'x' && "xlsx"@[1] == 'l' && "xlsx"@[2] == 's' && "xlsx"@[3] == 'x',
        "xls"@.len() == 3 && "xls"@[0] == 'x' && "xls"@[1] == 'l' && "xls"@[2] == 's',
        "csv"@.len() == 3 && "csv"@[0] == 'c' && "csv"@[1] == 's' && "csv"@[2] == 'v',
        "pdf"@.len() == 3 && "pdf"@[0] == 'p' && "pdf"@[1] == 'd' && "pdf"@[2] == 'f',
        "docx"@.len() == 4 && "docx"@[0] == 'd' && "docx"@[1] == 'o' && "docx"@[2] == 'c' && "docx"@[3] == 'x',
        "doc"@.len() == 3 && "doc"@[0] == 'd' && "doc"@[1] == 'o' && "doc"@[2] == 'c',
        "pptx"@.len() == 4 && "pptx"@[0] == 'p' && "pptx"@[1] == 'p' && "pptx"@[2] == 't' && "pptx"@[3] == 'x',
        "txt"@.len() == 3 && "txt"@[0] == 't' && "txt"@[1] == 'x' && "txt"@[2] == 't',
        "json"@.len() == 4 && "json"@[0] == 'j' && "json"@[1] == 's' && "json"@[2] == 'o' && "json"@[3] == 'n',
        "xml"@.len() == 3 && "xml"@[0] == 'x' && "xml"@[1] == 'm' && "xml"@[2] == 'l',
        "html"@.len() == 4 && "html"@[0] == 'h' && "html"@[1] == 't' && "html"@[2] == 'm' && "html"@[3] == 'l',
        "htm"@.len() == 3 && "htm"@[0] == 'h' && "htm"@[1] == 't' && "htm"@[2] == 'm',
        "zip"@.len() == 3 && "zip"@[0] == 'z' && "zip"@[1] == 'i' && "zip"@[2] == 'p',
        "tar"@.len() == 3 && "tar"@[0] == 't' && "tar"@[1] == 'a' && "tar"@[2] == 'r',
        "gz"@.len() == 2 && "gz"@[0] == 'g' && "gz"@[1] == 'z',
        "tgz"@.len() == 3 && "tgz"@[0] == 't' && "tgz"@[1] == 'g' && "tgz"@[2] == 'z',
        "png"@.len() == 3 && "png"@[0] == 'p' && "png"@[1] == 'n' && "png"@[2] == 'g',
        "jpg"@.len() == 3 && "jpg"@[0] == 'j' && "jpg"@[1] == 'p' && "jpg"@[2] == 'g',
        "jpeg"@.len() == 4 && "jpeg"@[0] == 'j' && "jpeg"@[1] == 'p' && "jpeg"@[2] == 'e' && "jpeg"@[3] == 'g',
        "gif"@.len() == 3 && "gif"@[0] == 'g' && "gif"@[1] == 'i' && "gif"@[2] == 'f',
        "svg"@.len() == 3 && "svg"@[0] == 's' && "svg"@[1] == 'v' && "svg"@[2] == 'g',
        "webp"@.len() == 4 && "webp"@[0] == 'w' && "webp"@[1] == 'e' && "webp"@[2] == 'b' && "webp"@[3] == 'p',
        "parquet"@.len() == 7 && "parquet"@[0] == 'p' && "parquet"@[1] == 'a' && "parquet"@[2] == 'r' && "parquet"@[3] == 'q',
        "sqlite"@.len() == 6 && "sqlite"@[0] == 's' && "sqlite"@[1] == 'q' && "sqlite"@[2] == 'l' && "sqlite"@[3] == 'i',
        "db"@.len() == 2 && "db"@[0] == 'd' && "db"@[1] == 'b',
{
    reveal_strlit("xlsx");
    reveal_strlit("xls");
    reveal_strlit("csv");
    reveal_strlit("pdf");
    reveal_strlit("docx");
    reveal_strlit("doc");
    reveal_strlit("pptx");
    reveal_strlit("txt");
    reveal_strlit("json");
    reveal_strlit("xml");
    reveal_strlit("html");
    reveal_strlit("htm");
    reveal_strlit("zip");
    reveal_strlit("tar");
    reveal_strlit("gz");
    reveal_strlit("tgz");
    reveal_strlit("png");
    reveal_strlit("jpg");
    reveal_strlit("jpeg");
    reveal_strlit("gif");
    reveal_strlit("svg");
    reveal_strlit("webp");
    reveal_strlit("parquet");
    reveal_strlit("sqlite");
    reveal_strlit("db");
}

proof fn lemma_no_image(m: Seq<char>)
    requires
        m.len() > 0,
        m[0] != 'i',
    ensures
        !"image/"@.is_prefix_of(m),
{
    reveal_strlit("image/");
    if "image/"@.is_prefix_of(m) {
        assert(m.subrange(0, 6)[0] == m[0]);
        assert("image/"@[0] == 'i');
    }
}

proof fn lemma_types()
    ensures
        !"image/"@.is_prefix_of("application/vnd.openxmlformats-officedocument.spreadsheetml.sheet"@),
        !"image/"@.is_prefix_of("application/vnd.ms-excel"@),
        !"image/"@.is_prefix_of("text/csv"@),
        !"image/"@.is_prefix_of("application/pdf"@),
        !"image/"@.is_prefix_of("application/vnd.openxmlformats-officedocument.wordprocessingml.document"@),
        !"image/"@.is_prefix_of("application/msword"@),
        !"image/"@.is_prefix_of("application/vnd.openxmlformats-officedocument.presentationml.presentation"@),
        !"image/"@.is_prefix_of("text/plain"@),
        !"image/"@.is_prefix_of("application/json"@),
        !"image/"@.is_prefix_of("application/xml"@),
        !"image/"@.is_prefix_of("text/html"@),
        !"image/"@.is_prefix_of("application/zip"@),
        !"image/"@.is_prefix_of("application/x-tar"@),
        !"image/"@.is_prefix_of("application/gzip"@),
        "image/"@.is_prefix_of("image/png"@),
        "image/"@.is_prefix_of("image/jpeg"@),
        "image/"@.is_prefix_of("image/gif"@),
        "image/"@.is_prefix_of("image/svg+xml"@),
        "image/"@.is_prefix_of("image/webp"@),
        !"image/"@.is_prefix_of("application/octet-stream"@),
        !"image/"@.is_prefix_of("application/x-sqlite3"@),
        "image/png"@ == "image/"@ + "png"@,
        "image/gif"@ == "image/"@ + "gif"@,
        "image/webp"@ == "image/"@ + "webp"@,
        "image/jpeg"@ == "image/"@ + "jpeg"@,
        "application/pdf"@ == "application/"@ + "pdf"@,
        "application/json"@ == "application/"@ + "json"@,
        "application/xml"@ == "application/"@ + "xml"@,
        "application/zip"@ == "application/"@ + "zip"@,
        "text/csv"@ == "text/"@ + "csv"@,
        "text/html"@ == "text/"@ + "html"@,
{
    reveal_strlit("image/");
    reveal_strlit("text/");
    reveal_strlit("application/");
    reveal_strlit("application/vnd.openxmlformats-officedocument.spreadsheetml.sheet");
    reveal_strlit("application/vnd.ms-excel");
    reveal_strlit("text/csv");
    reveal_strlit("application/pdf");
    reveal_strlit("application/vnd.openxmlformats-officedocument.wordprocessingml.document");
    reveal_strlit("application/msword");
    reveal_strlit("application/vnd.openxmlformats-officedocument.presentationml.presentation");
    reveal_strlit("text/plain");
    reveal_strlit("application/json");
    reveal_strlit("application/xml");
    reveal_strlit("text/html");
    reveal_strlit("application/zip");
    reveal_strlit("application/x-tar");
    reveal_strlit("application/gzip");
    reveal_strlit("image/png");
    reveal_strlit("image/jpeg");
    reveal_strlit("image/gif");
    reveal_strlit("image/svg+xml");
    reveal_strlit("image/webp");
    reveal_strlit("application/octet-stream");
    reveal_strlit("application/x-sqlite3");
    reveal_strlit("png");
    reveal_strlit("gif");
    reveal_strlit("webp");
    reveal_strlit("jpeg");
    reveal_strlit("pdf");
    reveal_strlit("json");
    reveal_strlit("xml");
    reveal_strlit("zip");
    reveal_strlit("csv");
    reveal_strlit("html");
    lemma_no_image("application/vnd.openxmlformats-officedocument.spreadsheetml.sheet"@);
    lemma_no_image("application/vnd.ms-excel"@);
    lemma_no_image("text/csv"@);
    lemma_no_image("application/pdf"@);
    lemma_no_image("application/vnd.openxmlformats-officedocument.wordprocessingml.document"@);
    lemma_no_image("application/msword"@);
    lemma_no_image("application/vnd.openxmlformats-officedocument.presentationml.presentation"@);
    lemma_no_image("text/plain"@);
    lemma_no_image("application/json"@);
    lemma_no_image("application/xml"@);
    lemma_no_image("text/html"@);
    lemma_no_image("application/zip"@);
    lemma_no_image("application/x-tar"@);
    lemma_no_image("application/gzip"@);
    lemma_no_image("application/octet-stream"@);
    lemma_no_image("application/x-sqlite3"@);
    assert("image/png"@ =~= "image/"@ + "png"@);
    assert("image/gif"@ =~= "image/"@ + "gif"@);
    assert("image/webp"@ =~= "image/"@ + "webp"@);
    assert("image/jpeg"@ =~= "image/"@ + "jpeg"@);
    assert("application/pdf"@ =~= "application/"@ + "pdf"@);
    assert("application/json"@ =~= "application/"@ + "json"@);
    assert("application/xml"@ =~= "application/"@ + "xml"@);
    assert("application/zip"@ =~= "application/"@ + "zip"@);
    assert("text/csv"@ =~= "text/"@ + "csv"@);
    assert("text/html"@ =~= "text/"@ + "html"@);
}

proof fn lemma_at_front(root: Seq<char>, rest: Seq<char>)
    ensures
        text::occurs_at(root + rest, root, 0),
{
    assert((root + rest).subrange(0, root.len() as int) =~= root);
}

/// The roots under which files are looked for, and the characters that end a path.
pub proof fn paths_start_and_end_so(rest: Seq<char>, c: char)
    ensures
        path_starts("/tmp/"@ + rest, 0),
        path_starts("/home/"@ + rest, 0),
        path_starts("/var/"@ + rest, 0),
        path_starts("/opt/"@ + rest, 0),
        path_starts("/srv/"@ + rest, 0),
        path_starts("/root/"@ + rest, 0),
        path_starts("/data/"@ + rest, 0),
        path_starts("/mnt/"@ + rest, 0),
        path_starts("/usr/"@ + rest, 0),
        !path_starts("/etc/"@ + rest, 0),
        ends_path(c) <==> c == ' ' || c == '\n' || c == '\r' || c == '\t' || c == '"' || c == '\''
            || c == ')' || c == ']' || c == '}' || c == '>' || c == '`' || c == '\0',
{
    lemma_at_front("/tmp/"@, rest);
    lemma_at_front("/home/"@, rest);
    lemma_at_front("/var/"@, rest);
    lemma_at_front("/opt/"@, rest);
    lemma_at_front("/srv/"@, rest);
    lemma_at_front("/root/"@, rest);
    lemma_at_front("/data/"@, rest);
    lemma_at_front("/mnt/"@, rest);
    lemma_at_front("/usr/"@, rest);
    reveal_strlit("/etc/");
    reveal_strlit("/tmp/");
    reveal_strlit("/home/");
    reveal_strlit("/var/");
    reveal_strlit("/opt/");
    reveal_strlit("/srv/");
    reveal_strlit("/root/");
    reveal_strlit("/data/");
    reveal_strlit("/mnt/");
    reveal_strlit("/usr/");
    let t = "/etc/"@ + rest;
    assert(t[1] == 'e');
    assert("/tmp/"@[1] == 't' && "/home/"@[1] == 'h' && "/var/"@[1] == 'v' && "/opt/"@[1] == 'o');
    assert("/srv/"@[1] == 's' && "/root/"@[1] == 'r' && "/data/"@[1] == 'd' && "/mnt/"@[1] == 'm');
    assert("/usr/"@[1] == 'u');
    assert(t.subrange(0, 5)[1] == 'e');
    if t.len() >= 6 {
        assert(t.subrange(0, 6)[1] == 'e');
    }
}

/// A path without a dot is no file to hand out.
pub proof fn paths_without_a_dot_are_passed_over(s: Seq<char>)
    requires
        !s.contains('.'),
    ensures
        candidate(s).len() == 0,
{
    let c = text::strip_back(s, seq!['.', ',', ';']);
    lemma_strip_back_part(s, seq!['.', ',', ';']);
    if c.contains('.') {
        let i = choose|i: int| 0 <= i < c.len() && c[i] == '.';
        assert(s[i] == '.');
    }
}

proof fn lemma_strip_back_part(s: Seq<char>, set: Seq<char>)
    ensures
        text::strip_back(s, set).is_prefix_of(s),
    decreases s.len(),
{
    if s.len() > 0 && set.contains(s.last()) {
        lemma_strip_back_part(s.drop_last(), set);
    }
}

} // verus!
