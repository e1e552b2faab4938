//! The recursive listing that drives the sync engine: one record per object,
//! `path TAB kind TAB size TAB mtime LF`, with `d` for directories and `f`
//! for files.  The host formats it; the guest parses it; parsing undoes
//! formatting exactly.

use vstd::prelude::*;
use crate::errors::FsError;
use crate::numfmt::{spec_dec, spec_parse_u64, spec_dec_digits, u64_to_dec, parse_u64_dec, lemma_dec_digits_are_digits, lemma_dec_round_trip};
use crate::split::{spec_split, split_bytes, lemma_split_step, lemma_split_no_sep};

verus! {

/// Field separator of a listing record.
pub const TAB: u8 = 9;

/// Record separator of a listing.
pub const LF: u8 = 10;

/// Kind byte of a directory record.
pub const KIND_DIR: u8 = 0x64;

/// Kind byte of a file record.
pub const KIND_FILE: u8 = 0x66;

/// One listing record as the specifications see it.
#[verifier::ext_equal]
pub ghost struct RemoteFileV {
    pub path: Seq<u8>,
    pub is_dir: bool,
    pub size: u64,
    pub mtime: u64,
}

impl RemoteFileV {
    /// A record the listing format can carry faithfully: the path avoids the
    /// two separators, and a directory's size and time are zero, as the host
    /// always writes them.
    pub open spec fn wf(self) -> bool {
        &&& forall|i: int| 0 <= i < self.path.len() ==> #[trigger] self.path[i] != TAB
        &&& forall|i: int| 0 <= i < self.path.len() ==> #[trigger] self.path[i] != LF
        &&& self.is_dir ==> self.size == 0 && self.mtime == 0
    }
}

/// Metadata of one remote object, as listed by the host: volume-relative
/// path, kind, size in bytes, and modification time in seconds.
pub struct RemoteFile {
    pub path: Vec<u8>,
    pub is_dir: bool,
    pub size: u64,
    pub mtime: u64,
}

impl View for RemoteFile {
    type V = RemoteFileV;

    open spec fn view(&self) -> RemoteFileV {
        RemoteFileV { path: self.path@, is_dir: self.is_dir, size: self.size, mtime: self.mtime }
    }
}

impl RemoteFile {
    /// A file record.
    pub fn file(path: Vec<u8>, size: u64, mtime: u64) -> (r: RemoteFile)
        ensures
            r@ == (RemoteFileV { path: path@, is_dir: false, size: size, mtime: mtime }),
    {
        RemoteFile { path, is_dir: false, size, mtime }
    }

    /// A directory record; the listing carries no size or time for one.
    pub fn dir(path: Vec<u8>) -> (r: RemoteFile)
        ensures
            r@ == (RemoteFileV { path: path@, is_dir: true, size: 0u64, mtime: 0u64 }),
    {
        RemoteFile { path, is_dir: true, size: 0, mtime: 0 }
    }
}

/// The bytes of one listing record.
pub open spec fn spec_format_entry(e: RemoteFileV) -> Seq<u8> {
    e.path + seq![TAB] + (if e.is_dir {
        seq![KIND_DIR]
    } else {
        seq![KIND_FILE]
    }) + seq![TAB] + spec_dec(e.size as int) + seq![TAB] + spec_dec(e.mtime as int) + seq![LF]
}

/// The bytes of a whole listing, records in order.
pub open spec fn spec_format_list(entries: Seq<RemoteFileV>) -> Seq<u8>
    decreases entries.len(),
{
    if entries.len() == 0 {
        Seq::empty()
    } else {
        spec_format_entry(entries[0]) + spec_format_list(entries.drop_first())
    }
}

/// Reads one record: the first four tab-separated fields, or nothing when a
/// line has fewer than four.
pub open spec fn spec_parse_line(l: Seq<u8>) -> Option<RemoteFileV> {
    let parts = spec_split(l, TAB);
    if parts.len() >= 4 {
        Some(
            RemoteFileV {
                path: parts[0],
                is_dir: parts[1] == seq![KIND_DIR],
                size: spec_parse_u64(parts[2]),
                mtime: spec_parse_u64(parts[3]),
            },
        )
    } else {
        None
    }
}

/// The records of a sequence of lines, short lines skipped.
pub open spec fn spec_parse_lines(lines: Seq<Seq<u8>>) -> Seq<RemoteFileV>
    decreases lines.len(),
{
    if lines.len() == 0 {
        Seq::empty()
    } else {
        match spec_parse_line(lines[0]) {
            Some(e) => seq![e] + spec_parse_lines(lines.drop_first()),
            None => spec_parse_lines(lines.drop_first()),
        }
    }
}

/// The records of a whole listing body.
pub open spec fn spec_parse_list(b: Seq<u8>) -> Seq<RemoteFileV> {
    spec_parse_lines(spec_split(b, LF))
}

/// Appending a record to a listing appends its bytes.
proof fn lemma_format_list_snoc(entries: Seq<RemoteFileV>, e: RemoteFileV)
    ensures
        spec_format_list(entries.push(e)) == spec_format_list(entries) + spec_format_entry(e),
    decreases entries.len(),
{
    if entries.len() == 0 {
        assert(entries.push(e)[0] == e);
        assert(entries.push(e).drop_first() =~= Seq::<RemoteFileV>::empty());
        assert(spec_format_list(Seq::<RemoteFileV>::empty()) == Seq::<u8>::empty());
        assert(spec_format_list(entries.push(e)) =~= spec_format_entry(e));
        assert(spec_format_list(entries) + spec_format_entry(e) =~= spec_format_entry(e));
    } else {
        assert(entries.push(e).drop_first() =~= entries.drop_first().push(e));
        lemma_format_list_snoc(entries.drop_first(), e);
        assert(spec_format_entry(entries[0]) + (spec_format_list(entries.drop_first())
            + spec_format_entry(e)) =~= (spec_format_entry(entries[0]) + spec_format_list(
            entries.drop_first(),
        )) + spec_format_entry(e));
    }
}

/// Appending a line to a parse appends its record, if it has one.
proof fn lemma_parse_lines_snoc(lines: Seq<Seq<u8>>, l: Seq<u8>)
    ensures
        spec_parse_lines(lines.push(l)) == spec_parse_lines(lines) + (match spec_parse_line(l) {
            Some(e) => seq![e],
            None => Seq::<RemoteFileV>::empty(),
        }),
    decreases lines.len(),
{
    let tail = match spec_parse_line(l) {
        Some(e) => seq![e],
        None => Seq::<RemoteFileV>::empty(),
    };
    if lines.len() == 0 {
        assert(lines.push(l)[0] == l);
        assert(lines.push(l).drop_first() =~= Seq::<Seq<u8>>::empty());
        assert(spec_parse_lines(Seq::<Seq<u8>>::empty()) == Seq::<RemoteFileV>::empty());
        assert(spec_parse_lines(lines.push(l)) =~= tail);
        assert(spec_parse_lines(lines) + tail =~= tail);
    } else {
        assert(lines.push(l).drop_first() =~= lines.drop_first().push(l));
        lemma_parse_lines_snoc(lines.drop_first(), l);
        match spec_parse_line(lines[0]) {
            Some(e) => {
                assert(seq![e] + (spec_parse_lines(lines.drop_first()) + tail) =~= (seq![e]
                    + spec_parse_lines(lines.drop_first())) + tail);
            },
            None => {},
        }
    }
}

/// Formats a listing for the wire.
pub fn format_file_list(entries: &Vec<RemoteFile>) -> (r: Vec<u8>)
    ensures
        r@ == spec_format_list(entries@.map_values(|e: RemoteFile| e@)),
{
    let ghost views = entries@.map_values(|e: RemoteFile| e@);
    let mut out: Vec<u8> = Vec::new();
    let mut i: usize = 0;
    while i < entries.len()
        invariant
            i <= entries@.len(),
            views == entries@.map_values(|e: RemoteFile| e@),
            out@ == spec_format_list(views.take(i as int)),
        decreases entries@.len() - i,
    {
        let e = &entries[i];
        out.extend_from_slice(e.path.as_slice());
        out.push(TAB);
        if e.is_dir {
            out.push(KIND_DIR);
        } else {
            out.push(KIND_FILE);
        }
        out.push(TAB);
        let mut size_bytes: Vec<u8> = u64_to_dec(e.size);
        out.append(&mut size_bytes);
        out.push(TAB);
        let mut mtime_bytes: Vec<u8> = u64_to_dec(e.mtime);
        out.append(&mut mtime_bytes);
        out.push(LF);
        proof {
            lemma_format_list_snoc(views.take(i as int), views[i as int]);
            assert(views.take(i as int).push(views[i as int]) =~= views.take(i as int + 1));
            assert(out@ =~= spec_format_list(views.take(i as int)) + spec_format_entry(
                views[i as int],
            ));
        }
        i += 1;
    }
    proof {
        assert(views.take(views.len() as int) =~= views);
    }
    out
}

/// Parses a listing body into records, skipping malformed lines.
pub fn parse_file_list(body: &[u8]) -> (r: Vec<RemoteFile>)
    ensures
        r@.map_values(|e: RemoteFile| e@) == spec_parse_list(body@),
{
    let lines: Vec<Vec<u8>> = split_bytes(body, LF);
    let ghost line_views = lines@.map_values(|p: Vec<u8>| p@);
    let mut out: Vec<RemoteFile> = Vec::new();
    let mut i: usize = 0;
    proof {
        assert(line_views.take(0) =~= Seq::<Seq<u8>>::empty());
    }
    while i < lines.len()
        invariant
            i <= lines@.len(),
            line_views == lines@.map_values(|p: Vec<u8>| p@),
            out@.map_values(|e: RemoteFile| e@) == spec_parse_lines(line_views.take(i as int)),
        decreases lines@.len() - i,
    {
        let line: &Vec<u8> = &lines[i];
        let parts: Vec<Vec<u8>> = split_bytes(line.as_slice(), TAB);
        let ghost part_views = parts@.map_values(|p: Vec<u8>| p@);
        proof {
            lemma_parse_lines_snoc(line_views.take(i as int), line_views[i as int]);
            assert(line_views.take(i as int).push(line_views[i as int]) =~= line_views.take(
                i as int + 1,
            ));
        }
        if parts.len() >= 4 {
            let is_dir: bool = parts[1].len() == 1 && parts[1][0] == KIND_DIR;
            proof {
                assert(is_dir == (part_views[1] == seq![KIND_DIR])) by {
                    if part_views[1].len() == 1 && part_views[1][0] == KIND_DIR {
                        assert(part_views[1] =~= seq![KIND_DIR]);
                    }
                }
            }
            let size: u64 = parse_u64_dec(parts[2].as_slice());
            let mtime: u64 = parse_u64_dec(parts[3].as_slice());
            let mut parts = parts;
            let path: Vec<u8> = parts.remove(0);
            let rec = RemoteFile { path, is_dir, size, mtime };
            proof {
                let prev = out@.map_values(|e: RemoteFile| e@);
                assert(out@.push(rec).map_values(|e: RemoteFile| e@) =~= prev.push(rec@));
                assert(prev.push(rec@) =~= prev + seq![rec@]);
            }
            out.push(rec);
        }
        i += 1;
    }
    proof {
        assert(line_views.take(line_views.len() as int) =~= line_views);
    }
    out
}

/// The bytes of a flat name listing: the names joined by the record
/// separator.
pub open spec fn spec_format_names(names: Seq<Seq<u8>>) -> Seq<u8>
    decreases names.len(),
{
    if names.len() == 0 {
        Seq::empty()
    } else if names.len() == 1 {
        names[0]
    } else {
        names[0] + seq![LF] + spec_format_names(names.drop_first())
    }
}

/// Appending a name appends a separator and the name, once one is present.
proof fn lemma_format_names_snoc(names: Seq<Seq<u8>>, n: Seq<u8>)
    requires
        names.len() > 0,
    ensures
        spec_format_names(names.push(n)) == spec_format_names(names) + seq![LF] + n,
    decreases names.len(),
{
    if names.len() == 1 {
        assert(names.push(n)[0] == names[0]);
        assert(names.push(n).drop_first() =~= seq![n]);
        assert(spec_format_names(seq![n]) == n);
        assert(spec_format_names(names.push(n)) =~= names[0] + seq![LF] + n);
    } else {
        assert(names.push(n)[0] == names[0]);
        assert(names.push(n).drop_first() =~= names.drop_first().push(n));
        lemma_format_names_snoc(names.drop_first(), n);
        assert(names[0] + seq![LF] + (spec_format_names(names.drop_first()) + seq![LF] + n) =~= (
        names[0] + seq![LF] + spec_format_names(names.drop_first())) + seq![LF] + n);
    }
}

/// Formats a directory's names for a flat listing response.
pub fn format_name_list(names: &Vec<Vec<u8>>) -> (r: Vec<u8>)
    ensures
        r@ == spec_format_names(names@.map_values(|n: Vec<u8>| n@)),
{
    let ghost nv = names@.map_values(|n: Vec<u8>| n@);
    let mut out: Vec<u8> = Vec::new();
    let mut i: usize = 0;
    proof {
        assert(nv.take(0) =~= Seq::<Seq<u8>>::empty());
    }
    while i < names.len()
        invariant
            nv == names@.map_values(|n: Vec<u8>| n@),
            i <= names@.len(),
            out@ == spec_format_names(nv.take(i as int)),
        decreases names@.len() - i,
    {
        if i > 0 {
            out.push(LF);
        }
        out.extend_from_slice(names[i].as_slice());
        proof {
            if i == 0 {
                assert(nv.take(1) =~= seq![nv[0]]);
                assert(out@ =~= spec_format_names(nv.take(1)));
            } else {
                lemma_format_names_snoc(nv.take(i as int), nv[i as int]);
                assert(nv.take(i as int).push(nv[i as int]) =~= nv.take(i as int + 1));
                assert(out@ =~= spec_format_names(nv.take(i as int)) + seq![LF] + nv[i as int]);
            }
        }
        i += 1;
    }
    proof {
        assert(nv.take(nv.len() as int) =~= nv);
    }
    out
}

/// The bytes of a stat response: `size:<n>` and `type:<dir|file>` lines.
pub open spec fn spec_format_stat(size: u64, is_dir: bool) -> Seq<u8> {
    seq![0x73u8, 0x69u8, 0x7au8, 0x65u8, 0x3au8] + spec_dec(size as int) + seq![
        0x0au8,
        0x74u8,
        0x79u8,
        0x70u8,
        0x65u8,
        0x3au8,
    ] + (if is_dir {
        seq![0x64u8, 0x69u8, 0x72u8]
    } else {
        seq![0x66u8, 0x69u8, 0x6cu8, 0x65u8]
    }) + seq![0x0au8]
}

/// Formats one object's size and kind for a stat response.
pub fn format_stat(size: u64, is_dir: bool) -> (r: Vec<u8>)
    ensures
        r@ == spec_format_stat(size, is_dir),
{
    let mut out: Vec<u8> = Vec::new();
    out.push(0x73);
    out.push(0x69);
    out.push(0x7a);
    out.push(0x65);
    out.push(0x3a);
    let mut digits: Vec<u8> = u64_to_dec(size);
    out.append(&mut digits);
    out.push(0x0a);
    out.push(0x74);
    out.push(0x79);
    out.push(0x70);
    out.push(0x65);
    out.push(0x3a);
    if is_dir {
        out.push(0x64);
        out.push(0x69);
        out.push(0x72);
    } else {
        out.push(0x66);
        out.push(0x69);
        out.push(0x6c);
        out.push(0x65);
    }
    out.push(0x0a);
    proof {
        assert(out@ =~= spec_format_stat(size, is_dir));
    }
    out
}

/// Interprets a listing response: the records on success, the remote status
/// as an error otherwise.
pub fn list_remote_files(status: u8, body: &[u8]) -> (r: Result<Vec<RemoteFile>, FsError>)
    ensures
        match r {
            Ok(v) => status == 0 && v@.map_values(|e: RemoteFile| e@) == spec_parse_list(body@),
            Err(e) => status != 0 && e == FsError::IoFailure(status as i32),
        },
{
    if status != 0 {
        Err(FsError::IoFailure(status as i32))
    } else {
        Ok(parse_file_list(body))
    }
}

/// The byte of a rendered decimal is a digit, so never a separator.
proof fn lemma_dec_has_no_separator(n: int)
    requires
        n >= 0,
    ensures
        forall|i: int| 0 <= i < spec_dec(n).len() ==> 0x30 <= #[trigger] spec_dec(n)[i] <= 0x39,
{
    if n == 0 {
    } else {
        lemma_dec_digits_are_digits(n);
        assert(forall|i: int|
            0 <= i < spec_dec(n).len() ==> spec_dec(n)[i] == #[trigger] spec_dec_digits(n)[i]);
    }
}

/// Parsing one formatted record yields that record.
proof fn lemma_parse_format_entry(e: RemoteFileV)
    requires
        e.wf(),
    ensures
        spec_format_entry(e).len() > 0,
        spec_format_entry(e).last() == LF,
        forall|i: int|
            0 <= i < spec_format_entry(e).len() - 1 ==> #[trigger] spec_format_entry(e)[i] != LF,
        spec_parse_line(spec_format_entry(e).drop_last()) == Some(e),
{
    let kind: Seq<u8> = if e.is_dir {
        seq![KIND_DIR]
    } else {
        seq![KIND_FILE]
    };
    let d1 = spec_dec(e.size as int);
    let d2 = spec_dec(e.mtime as int);
    let line = e.path + seq![TAB] + kind + seq![TAB] + d1 + seq![TAB] + d2;
    lemma_dec_has_no_separator(e.size as int);
    lemma_dec_has_no_separator(e.mtime as int);
    assert(spec_format_entry(e) =~= line + seq![LF]);
    assert(spec_format_entry(e).drop_last() =~= line);

    // The line splits at the tabs into exactly the four fields.
    let rest1 = kind + seq![TAB] + d1 + seq![TAB] + d2;
    assert(line =~= e.path + seq![TAB] + rest1);
    lemma_split_step(e.path, TAB, rest1);
    let rest2 = d1 + seq![TAB] + d2;
    assert(rest1 =~= kind + seq![TAB] + rest2);
    lemma_split_step(kind, TAB, rest2);
    assert(rest2 =~= d1 + seq![TAB] + d2);
    lemma_split_step(d1, TAB, d2);
    lemma_split_no_sep(d2, TAB);
    let parts = spec_split(line, TAB);
    assert(parts =~= seq![e.path] + (seq![kind] + (seq![d1] + seq![d2])));
    assert(parts =~= seq![e.path, kind, d1, d2]);

    assert((kind == seq![KIND_DIR]) == e.is_dir);
    lemma_dec_round_trip(e.size);
    lemma_dec_round_trip(e.mtime);
    assert(spec_parse_line(line) == Some(e));

    // No byte of the line is the record separator.
    assert forall|i: int| 0 <= i < spec_format_entry(e).len() - 1 implies #[trigger] spec_format_entry(
        e,
    )[i] != LF by {
        assert(spec_format_entry(e)[i] == line[i]);
    }
}

/// Round trip: a well-formed listing parses back to exactly the records it
/// was formatted from.
pub proof fn lemma_list_round_trip(entries: Seq<RemoteFileV>)
    requires
        forall|i: int| 0 <= i < entries.len() ==> #[trigger] entries[i].wf(),
    ensures
        spec_parse_list(spec_format_list(entries)) == entries,
    decreases entries.len(),
{
    if entries.len() == 0 {
        let empty = Seq::<u8>::empty();
        lemma_split_no_sep(empty, LF);
        assert(spec_split(empty, LF) =~= seq![empty]);
        lemma_split_no_sep(empty, TAB);
        assert(spec_parse_line(empty) is None);
        assert(seq![empty][0] == empty);
        assert(seq![empty].drop_first() =~= Seq::<Seq<u8>>::empty());
        assert(spec_parse_lines(Seq::<Seq<u8>>::empty()) == Seq::<RemoteFileV>::empty());
        assert(spec_parse_lines(seq![empty]).len() == 0);
        assert(spec_parse_list(spec_format_list(entries)) =~= entries);
    } else {
        let e = entries[0];
        let rest = entries.drop_first();
        lemma_parse_format_entry(e);
        let line = spec_format_entry(e).drop_last();
        let body = spec_format_list(entries);
        assert(body =~= line + seq![LF] + spec_format_list(rest));
        assert forall|i: int| 0 <= i < line.len() implies line[i] != LF by {
            assert(spec_format_entry(e)[i] == line[i]);
        }
        lemma_split_step(line, LF, spec_format_list(rest));
        lemma_list_round_trip(rest);
        let ls = seq![line] + spec_split(spec_format_list(rest), LF);
        assert(ls[0] == line);
        assert(ls.drop_first() =~= spec_split(spec_format_list(rest), LF));
        assert(spec_parse_line(line) == Some(e));
        assert(spec_parse_lines(ls) =~= seq![e] + spec_parse_lines(
            spec_split(spec_format_list(rest), LF),
        ));
        assert(seq![e] + rest =~= entries);
    }
}

} // verus!
