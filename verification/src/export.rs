//! The snapshot of an export: its files, each with its path and its bytes, in the order
//! in which they were found.
use crate::text::same_text;
use vstd::prelude::*;

verus! {

/// One file of an export: its path and its bytes.
#[derive(Debug)]
pub struct ExportFile {
    pub path: String,
    pub contents: Vec<u8>,
}

/// The mathematical value of an [`ExportFile`]: its path, then its bytes.
pub type FileView = (Seq<char>, Seq<u8>);

/// The values of a sequence of files.
pub open spec fn file_views(files: Seq<ExportFile>) -> Seq<FileView> {
    Seq::new(files.len(), |i: int| (files[i].path@, files[i].contents@))
}

/// The bytes of the first file with the given path.
pub open spec fn contents_of(files: Seq<FileView>, path: Seq<char>) -> Option<Seq<u8>>
    decreases files.len(),
{
    if files.len() == 0 {
        None
    } else if files[0].0 == path {
        Some(files[0].1)
    } else {
        contents_of(files.drop_first(), path)
    }
}

/// Whether a path names something that lies in a directory itself, not deeper: the
/// directory's path, a `/`, and a name without `/`.
pub open spec fn lies_in(path: Seq<char>, dir: Seq<char>) -> bool {
    &&& path.len() > dir.len() + 1
    &&& path.subrange(0, dir.len() as int) == dir
    &&& path[dir.len() as int] == '/'
    &&& forall|i: int| dir.len() < i < path.len() ==> path[i] != '/'
}

/// The first file that lies in a directory.
pub open spec fn first_in(files: Seq<FileView>, dir: Seq<char>) -> Option<FileView>
    decreases files.len(),
{
    if files.len() == 0 {
        None
    } else if lies_in(files[0].0, dir) {
        Some(files[0])
    } else {
        first_in(files.drop_first(), dir)
    }
}

/// The lines of a text, as bytes: what stands between its line feeds, before the first
/// and after the last.
pub open spec fn lines_of(bytes: Seq<u8>) -> Seq<Seq<u8>>
    decreases bytes.len(),
{
    if bytes.len() == 0 {
        seq![Seq::empty()]
    } else if bytes.last() == 10u8 {
        lines_of(bytes.drop_last()).push(Seq::empty())
    } else {
        let before = lines_of(bytes.drop_last());
        before.drop_last().push(before.last().push(bytes.last()))
    }
}

/// The first file with the given path.
pub(crate) fn find_file<'a>(files: &'a Vec<ExportFile>, path: &str) -> (r: Option<&'a ExportFile>)
    ensures
        match r {
            Some(file) => contents_of(file_views(files@), path@) == Some(file.contents@),
            None => contents_of(file_views(files@), path@) is None,
        },
{
    let ghost all = file_views(files@);
    let mut i: usize = 0;
    assert(all.skip(0) == all);
    while i < files.len()
        invariant
            i <= files.len(),
            all == file_views(files@),
            contents_of(all, path@) == contents_of(all.skip(i as int), path@),
        decreases files.len() - i,
    {
        proof {
            assert(all.skip(i as int).drop_first() == all.skip(i + 1));
            assert(all.skip(i as int)[0] == all[i as int]);
        }
        if same_text(files[i].path.as_str(), path) {
            return Some(&files[i]);
        }
        i += 1;
    }
    None
}

/// The characters of a text.
fn chars_of(text: &str) -> (out: Vec<char>)
    ensures
        out@ == text@,
{
    let mut out: Vec<char> = Vec::new();
    for c in it: text.chars()
        invariant
            it.seq() == text@,
            out@ == text@.take(it.index()),
    {
        proof {
            assert(text@.take(it.index() + 1) == text@.take(it.index()).push(c));
        }
        out.push(c);
    }
    proof {
        assert(text@.take(text@.len() as int) == text@);
    }
    out
}

/// Whether a path names something that lies in a directory itself.
fn path_lies_in(path: &str, dir: &str) -> (r: bool)
    ensures
        r == lies_in(path@, dir@),
{
    let p = chars_of(path);
    let d = chars_of(dir);
    let path_len = p.len();
    let dir_len = d.len();
    if dir_len >= usize::MAX {
        return false;
    }
    if path_len <= dir_len + 1 {
        return false;
    }
    let mut i: usize = 0;
    while i < d.len()
        invariant
            i <= d.len(),
            d.len() < p.len(),
            p@ == path@,
            d@ == dir@,
            forall|k: int| 0 <= k < i ==> p@[k] == d@[k],
        decreases d.len() - i,
    {
        if p[i] != d[i] {
            assert(path@.subrange(0, dir@.len() as int)[i as int] != dir@[i as int]);
            return false;
        }
        i += 1;
    }
    assert(path@.subrange(0, dir@.len() as int) =~= dir@);
    if p[d.len()] != '/' {
        return false;
    }
    let mut k: usize = d.len() + 1;
    while k < p.len()
        invariant
            d.len() < k <= p.len(),
            p@ == path@,
            d@ == dir@,
            forall|n: int| d.len() < n < k ==> p@[n] != '/',
        decreases p.len() - k,
    {
        if p[k] == '/' {
            return false;
        }
        k += 1;
    }
    true
}

/// The first file that lies in a directory.
pub(crate) fn find_first_in<'a>(files: &'a Vec<ExportFile>, dir: &str) -> (r: Option<&'a ExportFile>)
    ensures
        match r {
            Some(file) => first_in(file_views(files@), dir@) == Some(
                (file.path@, file.contents@),
            ),
            None => first_in(file_views(files@), dir@) is None,
        },
{
    let ghost all = file_views(files@);
    let mut i: usize = 0;
    assert(all.skip(0) == all);
    while i < files.len()
        invariant
            i <= files.len(),
            all == file_views(files@),
            first_in(all, dir@) == first_in(all.skip(i as int), dir@),
        decreases files.len() - i,
    {
        proof {
            assert(all.skip(i as int).drop_first() == all.skip(i + 1));
            assert(all.skip(i as int)[0] == all[i as int]);
        }
        if path_lies_in(files[i].path.as_str(), dir) {
            return Some(&files[i]);
        }
        i += 1;
    }
    None
}

/// The bytes of a sequence of lines.
pub open spec fn line_views(lines: Seq<Vec<u8>>) -> Seq<Seq<u8>> {
    Seq::new(lines.len(), |i: int| lines[i]@)
}

/// Cuts the bytes of a text into its lines.
pub fn split_lines(bytes: &[u8]) -> (lines: Vec<Vec<u8>>)
    ensures
        line_views(lines@) == lines_of(bytes@),
{
    let mut lines: Vec<Vec<u8>> = Vec::new();
    let mut current: Vec<u8> = Vec::new();
    let mut i: usize = 0;
    proof {
        assert(bytes@.take(0) =~= Seq::empty());
        assert(line_views(lines@).push(current@) =~= lines_of(bytes@.take(0)));
    }
    while i < bytes.len()
        invariant
            i <= bytes.len(),
            line_views(lines@).push(current@) == lines_of(bytes@.take(i as int)),
        decreases bytes.len() - i,
    {
        proof {
            let next = bytes@.take(i + 1);
            assert(next.drop_last() == bytes@.take(i as int));
            assert(next.last() == bytes@[i as int]);
        }
        let ghost before = line_views(lines@);
        let ghost line = current@;
        if bytes[i] == 10 {
            lines.push(current);
            current = Vec::new();
            proof {
                assert(line_views(lines@) =~= before.push(line));
            }
        } else {
            current.push(bytes[i]);
            proof {
                assert(before.push(line).drop_last() =~= before);
            }
        }
        i += 1;
    }
    let ghost before = line_views(lines@);
    let ghost line = current@;
    lines.push(current);
    proof {
        assert(bytes@.take(bytes@.len() as int) == bytes@);
        assert(line_views(lines@) =~= before.push(line));
    }
    lines
}

} // verus!
