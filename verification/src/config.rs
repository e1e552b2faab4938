//! Volume configuration: a sequence of `source:target:options` records, one
//! per line.  Comment lines start with `#`; a line without a separator is
//! skipped, never fatal.  Reading the file is I/O and happens outside this
//! crate; the parsing of its content is verified here.

use vstd::prelude::*;
use crate::split::{spec_split, first_index_of, lemma_first_index_of_from_scan, lemma_first_index_of_none, lemma_split_step, lemma_split_no_sep};

verus! {

/// One volume record as the specifications see it.
#[verifier::ext_equal]
pub ghost struct VolumeConfigV {
    pub source: Seq<char>,
    pub target: Seq<char>,
    pub options: Seq<char>,
}

/// One volume to serve: the host path, the guest-side mountpoint, and the
/// mount-flag or tuning string.
#[derive(Debug, Clone)]
pub struct VolumeConfig {
    /// Source path on host.
    pub source: String,
    /// Target path in guest.
    pub target: String,
    /// Mount options, empty when the record carries none.
    pub options: String,
}

impl View for VolumeConfig {
    type V = VolumeConfigV;

    open spec fn view(&self) -> VolumeConfigV {
        VolumeConfigV { source: self.source@, target: self.target@, options: self.options@ }
    }
}

/// The daemon's whole configuration.
#[derive(Debug)]
pub struct Config {
    /// Port the stream transport binds.
    pub vsock_port: u32,
    /// Volumes to serve.
    pub volumes: Vec<VolumeConfig>,
}

/// The whitespace trimmed from both ends of a record line: spaces, tabs and
/// carriage returns.
pub open spec fn is_space(c: char) -> bool {
    c == ' ' || c == '\t' || c == '\r'
}

/// `s` without leading whitespace.
pub open spec fn spec_trim_start(s: Seq<char>) -> Seq<char>
    decreases s.len(),
{
    if s.len() > 0 && is_space(s[0]) {
        spec_trim_start(s.drop_first())
    } else {
        s
    }
}

/// `s` without trailing whitespace.
pub open spec fn spec_trim_end(s: Seq<char>) -> Seq<char>
    decreases s.len(),
{
    if s.len() > 0 && is_space(s.last()) {
        spec_trim_end(s.drop_last())
    } else {
        s
    }
}

/// `s` without whitespace at either end.
pub open spec fn spec_trim(s: Seq<char>) -> Seq<char> {
    spec_trim_end(spec_trim_start(s))
}

/// The record one line carries: nothing for a blank or comment line or one
/// without a separator; else the text before the first `:`, the text between
/// the first and second, and whatever follows the second.
pub open spec fn spec_parse_volume_line(line: Seq<char>) -> Option<VolumeConfigV> {
    let t = spec_trim(line);
    if t.len() == 0 || t[0] == '#' {
        None
    } else {
        let i = first_index_of(t, ':');
        if i < 0 {
            None
        } else {
            let src = t.take(i);
            let rest = t.skip(i + 1);
            let j = first_index_of(rest, ':');
            if j < 0 {
                Some(VolumeConfigV { source: src, target: rest, options: Seq::empty() })
            } else {
                Some(
                    VolumeConfigV {
                        source: src,
                        target: rest.take(j),
                        options: rest.skip(j + 1),
                    },
                )
            }
        }
    }
}

/// The records of a sequence of lines, in order, skipped lines omitted.
pub open spec fn spec_parse_volume_lines(lines: Seq<Seq<char>>) -> Seq<VolumeConfigV>
    decreases lines.len(),
{
    if lines.len() == 0 {
        Seq::empty()
    } else {
        match spec_parse_volume_line(lines[0]) {
            Some(v) => seq![v] + spec_parse_volume_lines(lines.drop_first()),
            None => spec_parse_volume_lines(lines.drop_first()),
        }
    }
}

/// The records of a whole configuration file.
pub open spec fn spec_parse_volumes(content: Seq<char>) -> Seq<VolumeConfigV> {
    spec_parse_volume_lines(spec_split(content, '\n'))
}

/// A scan that stops at the first non-space finds the trimmed start.
proof fn lemma_trim_start_skip(s: Seq<char>, a: int)
    requires
        0 <= a <= s.len(),
        forall|k: int| 0 <= k < a ==> is_space(#[trigger] s[k]),
        a == s.len() || !is_space(s[a]),
    ensures
        spec_trim_start(s) == s.skip(a),
    decreases a,
{
    if a == 0 {
        assert(s.skip(0) =~= s);
    } else {
        assert(is_space(s[0]));
        assert forall|k: int| 0 <= k < a - 1 implies is_space(#[trigger] s.drop_first()[k]) by {
            assert(is_space(s[k + 1]));
        }
        if a < s.len() {
            assert(s.drop_first()[a - 1] == s[a]);
        }
        lemma_trim_start_skip(s.drop_first(), a - 1);
        assert(s.drop_first().skip(a - 1) =~= s.skip(a));
    }
}

/// A scan that stops at the last non-space finds the trimmed end.
proof fn lemma_trim_end_take(s: Seq<char>, b: int)
    requires
        0 <= b <= s.len(),
        forall|k: int| b <= k < s.len() ==> is_space(#[trigger] s[k]),
        b == 0 || !is_space(s[b - 1]),
    ensures
        spec_trim_end(s) == s.take(b),
    decreases s.len(),
{
    if b == s.len() {
        if s.len() > 0 {
            assert(!is_space(s.last()));
        }
        assert(s.take(b) =~= s);
    } else {
        assert(is_space(s.last()));
        assert forall|k: int| b <= k < s.drop_last().len() implies is_space(
            #[trigger] s.drop_last()[k],
        ) by {
            assert(is_space(s[k]));
        }
        if b > 0 {
            assert(s.drop_last()[b - 1] == s[b - 1]);
        }
        lemma_trim_end_take(s.drop_last(), b);
        assert(s.drop_last().take(b) =~= s.take(b));
    }
}

/// Finds the first separator in `s`.
fn find_colon(s: &str) -> (r: Option<usize>)
    ensures
        match r {
            Some(i) => first_index_of(s@, ':') == i as int && i < s@.len(),
            None => first_index_of(s@, ':') < 0,
        },
{
    let n = s.unicode_len();
    let mut i: usize = 0;
    while i < n
        invariant
            n == s@.len(),
            i <= n,
            forall|k: int| 0 <= k < i ==> s@[k] != ':',
        decreases n - i,
    {
        if s.get_char(i) == ':' {
            proof {
                lemma_first_index_of_from_scan(s@, ':', i as int);
            }
            return Some(i);
        }
        i += 1;
    }
    proof {
        lemma_first_index_of_none(s@, ':');
    }
    None
}

/// Whether a character is trimmed.
fn is_space_exec(c: char) -> (r: bool)
    ensures
        r == is_space(c),
{
    c == ' ' || c == '\t' || c == '\r'
}

/// Parses one configuration line into its record, if it carries one.
pub fn parse_volume_line(line: &str) -> (r: Option<VolumeConfig>)
    ensures
        match r {
            Some(v) => spec_parse_volume_line(line@) == Some(v@),
            None => spec_parse_volume_line(line@) is None,
        },
{
    let n = line.unicode_len();
    let mut a: usize = 0;
    while a < n && is_space_exec(line.get_char(a))
        invariant
            n == line@.len(),
            a <= n,
            forall|k: int| 0 <= k < a ==> is_space(#[trigger] line@[k]),
        decreases n - a,
    {
        a += 1;
    }
    let mut b: usize = n;
    while b > a && is_space_exec(line.get_char(b - 1))
        invariant
            n == line@.len(),
            a <= b <= n,
            forall|k: int| b <= k < n ==> is_space(#[trigger] line@[k]),
        decreases b,
    {
        b -= 1;
    }
    proof {
        lemma_trim_start_skip(line@, a as int);
        let tail = line@.skip(a as int);
        assert forall|k: int| b - a <= k < tail.len() implies is_space(#[trigger] tail[k]) by {
            assert(is_space(line@[k + a]));
        }
        if b > a {
            assert(tail[b - a - 1] == line@[b as int - 1]);
        }
        lemma_trim_end_take(tail, b - a);
        assert(spec_trim(line@) == tail.take(b - a));
        assert(tail.take(b - a) =~= line@.subrange(a as int, b as int));
    }
    if b <= a {
        return None;
    }
    let t: &str = line.substring_char(a, b);
    let tn = b - a;
    proof {
        assert(t@ == spec_trim(line@));
    }
    if t.get_char(0) == '#' {
        return None;
    }
    match find_colon(t) {
        None => None,
        Some(i) => {
            let source: String = t.substring_char(0, i).to_owned();
            let rest: &str = t.substring_char(i + 1, tn);
            proof {
                assert(source@ =~= t@.take(i as int));
                assert(rest@ =~= t@.skip(i as int + 1));
            }
            match find_colon(rest) {
                None => {
                    let target: String = rest.to_owned();
                    let options: String = String::new();
                    let v = VolumeConfig { source, target, options };
                    proof {
                        assert(spec_parse_volume_line(line@) == Some(v@));
                    }
                    Some(v)
                },
                Some(j) => {
                    let rn = tn - (i + 1);
                    let target: String = rest.substring_char(0, j).to_owned();
                    let options: String = rest.substring_char(j + 1, rn).to_owned();
                    let v = VolumeConfig { source, target, options };
                    proof {
                        assert(target@ =~= rest@.take(j as int));
                        assert(options@ =~= rest@.skip(j as int + 1));
                        assert(spec_parse_volume_line(line@) == Some(v@));
                    }
                    Some(v)
                },
            }
        },
    }
}

/// Appending a line to a parse appends its record, if it has one.
proof fn lemma_parse_volume_lines_snoc(lines: Seq<Seq<char>>, l: Seq<char>)
    ensures
        spec_parse_volume_lines(lines.push(l)) == spec_parse_volume_lines(lines) + (
        match spec_parse_volume_line(l) {
            Some(v) => seq![v],
            None => Seq::<VolumeConfigV>::empty(),
        }),
    decreases lines.len(),
{
    let tail = match spec_parse_volume_line(l) {
        Some(v) => seq![v],
        None => Seq::<VolumeConfigV>::empty(),
    };
    if lines.len() == 0 {
        assert(lines.push(l)[0] == l);
        assert(lines.push(l).drop_first() =~= Seq::<Seq<char>>::empty());
        assert(spec_parse_volume_lines(Seq::<Seq<char>>::empty()) == Seq::<VolumeConfigV>::empty());
        assert(spec_parse_volume_lines(lines.push(l)) =~= tail);
        assert(spec_parse_volume_lines(lines) + tail =~= tail);
    } else {
        assert(lines.push(l)[0] == lines[0]);
        assert(lines.push(l).drop_first() =~= lines.drop_first().push(l));
        lemma_parse_volume_lines_snoc(lines.drop_first(), l);
        match spec_parse_volume_line(lines[0]) {
            Some(v) => {
                assert(seq![v] + (spec_parse_volume_lines(lines.drop_first()) + tail) =~= (seq![v]
                    + spec_parse_volume_lines(lines.drop_first())) + tail);
            },
            None => {},
        }
    }
}

/// Parses a whole configuration file's content: every well-formed line's
/// record, in file order; blank, comment and malformed lines are skipped.
pub fn parse_volumes(content: &str) -> (r: Vec<VolumeConfig>)
    ensures
        r@.map_values(|v: VolumeConfig| v@) == spec_parse_volumes(content@),
{
    let n = content.unicode_len();
    let mut out: Vec<VolumeConfig> = Vec::new();
    let mut start: usize = 0;
    let mut i: usize = 0;
    let ghost mut processed: Seq<Seq<char>> = Seq::empty();
    proof {
        assert(content@.skip(0) =~= content@);
        assert(processed + spec_split(content@, '\n') =~= spec_split(content@, '\n'));
        assert(out@.map_values(|v: VolumeConfig| v@) =~= spec_parse_volume_lines(processed));
    }
    while i < n
        invariant
            n == content@.len(),
            start <= i <= n,
            forall|k: int| start <= k < i ==> content@[k] != '\n',
            spec_split(content@, '\n') == processed + spec_split(content@.skip(start as int), '\n'),
            out@.map_values(|v: VolumeConfig| v@) == spec_parse_volume_lines(processed),
        decreases n - i,
    {
        if content.get_char(i) == '\n' {
            let piece: &str = content.substring_char(start, i);
            proof {
                let line = content@.subrange(start as int, i as int);
                assert(piece@ == line);
                assert(content@.skip(start as int) =~= line + seq!['\n'] + content@.skip(
                    i as int + 1,
                ));
                assert forall|k: int| 0 <= k < line.len() implies line[k] != '\n' by {
                    assert(content@[k + start] != '\n');
                }
                lemma_split_step(line, '\n', content@.skip(i as int + 1));
                lemma_parse_volume_lines_snoc(processed, line);
                assert(processed + (seq![line] + spec_split(content@.skip(i as int + 1), '\n'))
                    =~= processed.push(line) + spec_split(content@.skip(i as int + 1), '\n'));
            }
            match parse_volume_line(piece) {
                Some(v) => {
                    proof {
                        let om = out@.map_values(|x: VolumeConfig| x@);
                        assert(out@.push(v).map_values(|x: VolumeConfig| x@) =~= om.push(v@));
                        assert(om.push(v@) =~= om + seq![v@]);
                    }
                    out.push(v);
                },
                None => {
                    proof {
                        let om = out@.map_values(|x: VolumeConfig| x@);
                        assert(om + Seq::<VolumeConfigV>::empty() =~= om);
                    }
                },
            }
            proof {
                processed = processed.push(piece@);
            }
            start = i + 1;
        }
        i += 1;
    }
    let piece: &str = content.substring_char(start, n);
    proof {
        let line = content@.subrange(start as int, n as int);
        assert(piece@ == line);
        assert(content@.skip(start as int) =~= line);
        assert forall|k: int| 0 <= k < line.len() implies line[k] != '\n' by {
            assert(content@[k + start] != '\n');
        }
        lemma_split_no_sep(line, '\n');
        lemma_parse_volume_lines_snoc(processed, line);
        assert(processed + seq![line] =~= processed.push(line));
    }
    match parse_volume_line(piece) {
        Some(v) => {
            proof {
                let om = out@.map_values(|x: VolumeConfig| x@);
                assert(out@.push(v).map_values(|x: VolumeConfig| x@) =~= om.push(v@));
                assert(om.push(v@) =~= om + seq![v@]);
            }
            out.push(v);
        },
        None => {
            proof {
                let om = out@.map_values(|x: VolumeConfig| x@);
                assert(om + Seq::<VolumeConfigV>::empty() =~= om);
            }
        },
    }
    out
}

} // verus!
