//! Input and output for the XYZ trajectory format: a particle line holds a
//! name and three numeric fields; a frame holds a count line, a comment line,
//! and that many particle lines.
//!
//! The scalar type of the components is a type parameter; how a textual field
//! becomes a scalar (and back) is supplied by the caller as a function, since
//! the library fixes the grammar but not the numeric precision.

use vstd::prelude::*;

use crate::coordinate::{CoordKind, Coordinate};
use crate::error::{Error, ErrorKind};
use crate::particle::{Attribute, Particle};
use crate::snapshot::Snapshot;
use crate::grammar::{
    count_syntax_ok, count_val, dec_digits, is_space, is_token, lemma_dec_digits_val,
    lemma_line_end_at, lemma_skip_lines_add, lemma_skip_lines_snoc, lemma_split_ws_run,
    lemma_split_ws_skip_spaces, lemma_split_ws_tokens, lemma_trim_id, line_at, next_pos,
    parse_count, push_decimal, skip_lines, split_ws, str_eq, tokenize, trim, trim_str, CountRead,
};

verus! {

/// Whether the scalar reader `f`, applied to the token `tok`, can return the
/// value `v`.
pub open spec fn parses_to<T, F: Fn(&str) -> Option<T>>(f: F, tok: Seq<char>, v: T) -> bool {
    exists|s: &str| s@ == tok && call_ensures(f, (s,), Some(v))
}

/// Whether the scalar reader `f`, applied to the token `tok`, can fail.
pub open spec fn parse_fails_on<T, F: Fn(&str) -> Option<T>>(f: F, tok: Seq<char>) -> bool {
    exists|s: &str| s@ == tok && call_ensures(f, (s,), None::<T>)
}

/// Whether the scalar reader `f` can fail on one of the three numeric fields
/// of a particle line with tokens `toks`.
pub open spec fn parse_fails_in<T, F: Fn(&str) -> Option<T>>(f: F, toks: Seq<Seq<char>>) -> bool {
    exists|i: int| 1 <= i < 4 && parse_fails_on(f, #[trigger] toks[i])
}

/// A particle contained in an XYZ file: a name and a tagged coordinate.
///
/// It may hold not only a position but also a velocity or a force, because it
/// contains the `Coordinate` defined in this library; which one is chosen by
/// the reader that produced it.
#[derive(Debug, Clone, PartialEq)]
pub struct XYZParticle<T> {
    /// The name of this particle.
    pub name: String,
    /// The coordinate of this particle.
    pub xyz: Coordinate<T>,
}

impl<T> XYZParticle<T> {
    /// Construct an `XYZParticle` from its parts.
    pub fn new(name: String, xyz: Coordinate<T>) -> (r: Self)
        ensures
            r.name == name,
            r.xyz == xyz,
    {
        XYZParticle { name, xyz }
    }

    /// Read one particle line, such as `"H 1.00 1.00 1.00"`: a name token and
    /// exactly three numeric fields, separated by whitespace. The coordinate
    /// is tagged with `kind`, which is a property of the stream, not of the
    /// line. A line of the wrong shape is an `InvalidFormat` error carrying
    /// the line itself; a field the scalar reader rejects is a `ParseError`.
    pub fn from_line<F: Fn(&str) -> Option<T>>(line: &str, kind: CoordKind, parse: &F) -> (r:
        Result<Self, Error>)
        requires
            forall|s: &str| call_requires(*parse, (s,)),
        ensures
            match r {
                Ok(p) => {
                    &&& split_ws(line@).len() == 4
                    &&& p.name@ == split_ws(line@)[0]
                    &&& p.xyz.spec_which() == kind
                    &&& parses_to(*parse, split_ws(line@)[1], p.xyz.spec_x())
                    &&& parses_to(*parse, split_ws(line@)[2], p.xyz.spec_y())
                    &&& parses_to(*parse, split_ws(line@)[3], p.xyz.spec_z())
                },
                Err(e) => match e.spec_kind() {
                    ErrorKind::InvalidFormat { error } => split_ws(line@).len() != 4 && error@
                        == line@,
                    ErrorKind::ParseError => split_ws(line@).len() == 4 && parse_fails_in(
                        *parse,
                        split_ws(line@),
                    ),
                    ErrorKind::Io => false,
                },
            },
    {
        let toks = tokenize(line);
        let ghost spec_toks = split_ws(line@);
        if toks.len() != 4 {
            return Err(Error::invalid_format(line.to_owned()));
        }
        proof {
            assert(toks@[0]@ == spec_toks[0]);
            assert(toks@[1]@ == spec_toks[1]);
            assert(toks@[2]@ == spec_toks[2]);
            assert(toks@[3]@ == spec_toks[3]);
        }
        let x = match parse(toks[1].as_str()) {
            Some(v) => v,
            None => {
                return Err(Error::new(ErrorKind::ParseError));
            },
        };
        let y = match parse(toks[2].as_str()) {
            Some(v) => v,
            None => {
                return Err(Error::new(ErrorKind::ParseError));
            },
        };
        let z = match parse(toks[3].as_str()) {
            Some(v) => v,
            None => {
                return Err(Error::new(ErrorKind::ParseError));
            },
        };
        let name = toks[0].clone();
        Ok(XYZParticle::new(name, Coordinate::build(kind, x, y, z)))
    }
}

/// One particle line of a frame, split into its four tokens: the name and the
/// three numeric fields, as text.
pub struct RawRow {
    pub name: Seq<char>,
    pub fx: Seq<char>,
    pub fy: Seq<char>,
    pub fz: Seq<char>,
}

/// The row formed by a token list of length four.
pub open spec fn mk_row(toks: Seq<Seq<char>>) -> RawRow {
    RawRow { name: toks[0], fx: toks[1], fy: toks[2], fz: toks[3] }
}

/// Whether the scalar reader `f` can fail on one of the three numeric fields
/// of `row`.
pub open spec fn row_parse_fails<T, F: Fn(&str) -> Option<T>>(f: F, row: RawRow) -> bool {
    parse_fails_on(f, row.fx) || parse_fails_on(f, row.fy) || parse_fails_on(f, row.fz)
}

/// How the structural scan of the particle lines of one frame ends.
pub enum RowStatus {
    /// Every declared line was present and held exactly four tokens.
    Done,
    /// The text ended before the declared count of lines was read.
    Eof,
    /// The first line whose token count is not four.
    Bad { line: Seq<char> },
}

/// The structural scan of a run of particle lines: the rows read (on failure,
/// those before the failing line), how the scan ended, and the position
/// reached.
pub struct RowScan {
    pub rows: Seq<RawRow>,
    pub status: RowStatus,
    pub end: int,
}

/// Scan `n` particle lines from `pos`, stopping at the first line that is
/// missing or does not hold exactly four tokens.
pub open spec fn scan_rows(text: Seq<char>, pos: int, n: nat) -> RowScan
    decreases n,
{
    if n == 0 {
        RowScan { rows: seq![], status: RowStatus::Done, end: pos }
    } else if pos >= text.len() {
        RowScan { rows: seq![], status: RowStatus::Eof, end: pos }
    } else {
        let l = line_at(text, pos);
        if split_ws(l).len() != 4 {
            RowScan { rows: seq![], status: RowStatus::Bad { line: l }, end: next_pos(text, pos) }
        } else {
            let r = scan_rows(text, next_pos(text, pos), (n - 1) as nat);
            RowScan { rows: seq![mk_row(split_ws(l))] + r.rows, status: r.status, end: r.end }
        }
    }
}

/// A scan that read every declared line read exactly that many rows: a frame
/// is never silently short.
pub proof fn lemma_scan_rows_len(text: Seq<char>, pos: int, n: nat)
    ensures
        scan_rows(text, pos, n).rows.len() <= n,
        scan_rows(text, pos, n).status is Done <==> scan_rows(text, pos, n).rows.len() == n,
    decreases n,
{
    if n > 0 && pos < text.len() && split_ws(line_at(text, pos)).len() == 4 {
        lemma_scan_rows_len(text, next_pos(text, pos), (n - 1) as nat);
    }
}

/// The structural scan of one frame.
pub enum Scan {
    /// The cursor stands at the end of the text.
    Eof,
    /// The header line, after trimming, is not a non-negative decimal integer.
    BadHeader { line: Seq<char>, end: int },
    /// The header is a decimal integer too large for `usize`.
    BigHeader { line: Seq<char>, end: int },
    /// The text ends where the comment line should be.
    NoComment { end: int },
    /// Header and comment line were read; `rows` describes the particle
    /// lines that follow.
    Frame { count: nat, comment: Seq<char>, rows: RowScan },
}

/// Scan one frame at `pos`: a header line holding the particle count, a
/// comment line, then that many particle lines.
pub open spec fn scan_frame(text: Seq<char>, pos: int) -> Scan {
    if pos >= text.len() {
        Scan::Eof
    } else {
        let hline = line_at(text, pos);
        let h = trim(hline);
        if !count_syntax_ok(h) {
            Scan::BadHeader { line: hline, end: next_pos(text, pos) }
        } else if count_val(h) > usize::MAX {
            Scan::BigHeader { line: hline, end: next_pos(text, pos) }
        } else {
            let p1 = next_pos(text, pos);
            if p1 >= text.len() {
                Scan::NoComment { end: p1 }
            } else {
                Scan::Frame {
                    count: count_val(h) as nat,
                    comment: trim(line_at(text, p1)),
                    rows: scan_rows(text, next_pos(text, p1), count_val(h) as nat),
                }
            }
        }
    }
}

/// A snapshot contained in an XYZ trajectory: a comment and the particles of
/// one frame.
#[derive(Debug, Clone, PartialEq)]
pub struct XYZSnapshot<T> {
    /// The comment for the snapshot (the second line of the frame), with
    /// surrounding whitespace trimmed.
    pub comment: String,
    /// The particles contained in the snapshot.
    pub particles: Vec<XYZParticle<T>>,
}

impl<T> XYZSnapshot<T> {
    /// Construct a snapshot from its parts.
    pub fn new(comment: String, particles: Vec<XYZParticle<T>>) -> (r: Self)
        ensures
            r.comment == comment,
            r.particles == particles,
    {
        XYZSnapshot { comment, particles }
    }

    /// The `CoordKind` of the particles in the snapshot, or `None` for an
    /// empty snapshot, where the kind cannot be determined. By construction
    /// all particles of one snapshot share one kind: the kind is configured
    /// on the reader, not carried per line.
    pub fn which(&self) -> (r: Option<CoordKind>)
        ensures
            match r {
                Some(k) => self.particles@.len() > 0 && k == self.particles@[0].xyz.spec_which(),
                None => self.particles@.len() == 0,
            },
    {
        if self.particles.len() == 0 {
            None
        } else {
            Some(self.particles[0].xyz.which())
        }
    }
}

/// How a snapshot built by a read relates to the scanned rows: the comment is
/// the frame's comment, and each particle carries the row's name, the
/// reader's kind, and components the scalar reader `f` can produce from the
/// row's three fields.
pub open spec fn good_snapshot<T, F: Fn(&str) -> Option<T>>(
    ss: XYZSnapshot<T>,
    comment: Seq<char>,
    rows: Seq<RawRow>,
    kind: CoordKind,
    f: F,
) -> bool {
    &&& ss.comment@ == comment
    &&& ss.particles@.len() == rows.len()
    &&& forall|j: int| 0 <= j < rows.len() ==> (#[trigger] ss.particles@[j]).name@ == rows[j].name
    &&& forall|j: int|
        0 <= j < rows.len() ==> (#[trigger] ss.particles@[j]).xyz.spec_which() == kind
    &&& forall|j: int|
        0 <= j < rows.len() ==> parses_to(f, rows[j].fx, (#[trigger] ss.particles@[j]).xyz.spec_x())
    &&& forall|j: int|
        0 <= j < rows.len() ==> parses_to(f, rows[j].fy, (#[trigger] ss.particles@[j]).xyz.spec_y())
    &&& forall|j: int|
        0 <= j < rows.len() ==> parses_to(f, rows[j].fz, (#[trigger] ss.particles@[j]).xyz.spec_z())
}

/// What one read of a snapshot returns, and where it leaves the cursor, in
/// terms of the structural scan of the frame at `pos` and the scalar reader
/// `f`. The scalar reader alone decides between success and a `ParseError` on
/// a structurally good frame; every other case is pinned by the text.
pub open spec fn read_outcome<T, F: Fn(&str) -> Option<T>>(
    text: Seq<char>,
    pos: int,
    kind: CoordKind,
    f: F,
    r: Result<XYZSnapshot<T>, Error>,
    pos2: int,
) -> bool {
    match scan_frame(text, pos) {
        Scan::Eof => r matches Err(e) && e.spec_kind() == ErrorKind::Io && pos2 == pos,
        Scan::BadHeader { line, end } => r matches Err(e) && (e.spec_kind()
            matches ErrorKind::InvalidFormat { error } && error@ == line) && pos2 == end,
        Scan::BigHeader { line, end } => r matches Err(e) && e.spec_kind() == ErrorKind::ParseError
            && pos2 == end,
        Scan::NoComment { end } => r matches Err(e) && e.spec_kind() == ErrorKind::Io && pos2
            == end,
        Scan::Frame { count, comment, rows } => match r {
            Ok(ss) => rows.status is Done && good_snapshot(ss, comment, rows.rows, kind, f) && pos2
                == rows.end,
            Err(e) => match e.spec_kind() {
                ErrorKind::Io => rows.status is Eof && pos2 == rows.end,
                ErrorKind::InvalidFormat { error } => (rows.status matches RowStatus::Bad { line }
                    && error@ == line) && pos2 == rows.end,
                ErrorKind::ParseError => exists|j: int|
                    0 <= j < rows.rows.len() && row_parse_fails(f, #[trigger] rows.rows[j]) && pos2
                        == skip_lines(text, pos, (3 + j) as nat),
            },
        },
    }
}

/// The relation the row-reading loop of `read_snapshot` maintains between the
/// scan of the whole row block (`full`) and the scan of what is left at the
/// cursor.
spec fn rows_inv(text: Seq<char>, pos: int, k: nat, n: nat, full: RowScan) -> bool
    recommends
        k <= n,
{
    let rest = scan_rows(text, pos, (n - k) as nat);
    &&& full.rows.len() >= k
    &&& full.rows == full.rows.take(k as int) + rest.rows
    &&& full.status == rest.status
    &&& full.end == rest.end
}

/// Reads XYZ snapshots, one frame at a time, from text held in memory.
///
/// The reader is configured at construction with the `CoordKind` that the
/// file's lines hold (nothing in the format itself says which it is) and with
/// the scalar reader that turns a numeric field into a value of `T` -- for
/// instance a function around `str::parse` for a chosen precision.
#[verifier::reject_recursive_types(T)]
pub struct XYZReader<T, F> where F: Fn(&str) -> Option<T> {
    kind: CoordKind,
    text: String,
    pos: usize,
    parse: F,
    marker: core::marker::PhantomData<T>,
}

impl<T, F> XYZReader<T, F> where F: Fn(&str) -> Option<T> {
    /// The kind of coordinate every particle line of this stream holds.
    pub closed spec fn spec_kind(&self) -> CoordKind {
        self.kind
    }

    /// The kind of coordinate this reader tags the particles with.
    pub fn which_kind(&self) -> (k: CoordKind)
        ensures
            k == self.spec_kind(),
    {
        self.kind
    }

    /// The text this reader walks.
    pub closed spec fn spec_text(&self) -> Seq<char> {
        self.text@
    }

    /// The cursor: how many characters of the text are consumed.
    pub closed spec fn spec_pos(&self) -> int {
        self.pos as int
    }

    /// The scalar reader the numeric fields go through.
    pub closed spec fn spec_parse(&self) -> F {
        self.parse
    }

    /// The cursor never stands past the end of the text.
    pub closed spec fn wf(&self) -> bool {
        self.pos as int <= self.text@.len()
    }

    /// Construct an `XYZReader` over `input`, with its cursor at the start.
    pub fn new(kind: CoordKind, input: String, parse: F) -> (r: Self)
        ensures
            r.spec_kind() == kind,
            r.spec_text() == input@,
            r.spec_pos() == 0,
            r.spec_parse() == parse,
            r.wf(),
    {
        XYZReader { kind, text: input, pos: 0, parse, marker: core::marker::PhantomData }
    }

    /// Consume one line: the text up to the next newline or the end.
    fn take_line(&mut self) -> (line: String)
        requires
            old(self).wf(),
            old(self).spec_pos() < old(self).spec_text().len(),
        ensures
            line@ == line_at(old(self).spec_text(), old(self).spec_pos()),
            final(self).spec_pos() == next_pos(old(self).spec_text(), old(self).spec_pos()),
            final(self).spec_text() == old(self).spec_text(),
            final(self).spec_kind() == old(self).spec_kind(),
            final(self).spec_parse() == old(self).spec_parse(),
            final(self).wf(),
    {
        let len = self.text.as_str().unicode_len();
        let mut j: usize = self.pos;
        while j < len && self.text.as_str().get_char(j) != '\n'
            invariant
                self.pos <= j <= len,
                len == self.text@.len(),
                forall|m: int| self.pos <= m < j ==> self.text@[m] != '\n',
            decreases len - j,
        {
            j = j + 1;
        }
        proof {
            lemma_line_end_at(self.text@, self.pos as int, j as int);
        }
        let line = self.text.as_str().substring_char(self.pos, j).to_owned();
        if j < len {
            self.pos = j + 1;
        } else {
            self.pos = j;
        }
        line
    }

    /// Read one snapshot: a header line with the particle count, a comment
    /// line, then that many particle lines, each read as by
    /// [`XYZParticle::from_line`] with this reader's kind. Fails when the text
    /// is exhausted where a line is needed (`Io`), when the header is not a
    /// non-negative decimal integer or a particle line does not hold exactly
    /// four tokens (`InvalidFormat`, carrying that line), when the header
    /// value does not fit in `usize` or the scalar reader rejects a field
    /// (`ParseError`). The cursor stops just past the last line consumed.
    pub fn read_snapshot(&mut self) -> (r: Result<XYZSnapshot<T>, Error>)
        requires
            old(self).wf(),
            forall|s: &str| call_requires(old(self).spec_parse(), (s,)),
        ensures
            final(self).wf(),
            final(self).spec_kind() == old(self).spec_kind(),
            final(self).spec_text() == old(self).spec_text(),
            final(self).spec_parse() == old(self).spec_parse(),
            read_outcome(
                old(self).spec_text(),
                old(self).spec_pos(),
                old(self).spec_kind(),
                old(self).spec_parse(),
                r,
                final(self).spec_pos(),
            ),
    {
        let ghost t = self.text@;
        let ghost p0 = self.pos as int;
        let ghost f = self.parse;
        let ghost kind0 = self.kind;
        let len = self.text.as_str().unicode_len();
        if self.pos >= len {
            return Err(Error::new(ErrorKind::Io));
        }
        let hline = self.take_line();
        let htrim = trim_str(hline.as_str());
        let n: usize = match parse_count(htrim.as_str()) {
            CountRead::Count(n) => n,
            CountRead::Invalid => {
                return Err(Error::invalid_format(hline));
            },
            CountRead::Overflow => {
                return Err(Error::new(ErrorKind::ParseError));
            },
        };
        let ghost p1 = next_pos(t, p0);
        if self.pos >= len {
            proof {
                assert(scan_frame(t, p0) matches Scan::NoComment { end } && end == p1);
            }
            return Err(Error::new(ErrorKind::Io));
        }
        let cline = self.take_line();
        let comment = trim_str(cline.as_str());
        let ghost rows_start = self.pos as int;
        let ghost full = scan_rows(t, rows_start, n as nat);
        proof {
            assert(rows_start == next_pos(t, p1));
            assert(scan_frame(t, p0) matches Scan::Frame { count, comment: c, rows }
                && count == n as nat && c == comment@ && rows == full);
            assert(scan_rows(t, rows_start, (n - 0) as nat) == full);
            assert(full.rows.take(0) + full.rows =~= full.rows);
            assert(skip_lines(t, rows_start, 0) == rows_start);
            lemma_skip_lines_add(t, p0, 1, 1);
            assert(skip_lines(t, p0, 1) == skip_lines(t, next_pos(t, p0), 0));
            assert(skip_lines(t, p1, 1) == skip_lines(t, next_pos(t, p1), 0));
            assert(skip_lines(t, p0, 2) == skip_lines(t, p1, 1));
            assert(rows_start == skip_lines(t, p0, 2));
        }
        let mut particles: Vec<XYZParticle<T>> = Vec::new();
        let mut k: usize = 0;
        while k < n
            invariant
                self.wf(),
                t == old(self).spec_text(),
                kind0 == old(self).spec_kind(),
                f == old(self).spec_parse(),
                self.text@ == t,
                self.kind == kind0,
                self.parse == f,
                p0 == old(self).spec_pos(),
                scan_frame(t, p0) == (Scan::Frame { count: n as nat, comment: comment@, rows: full }),
                rows_start == skip_lines(t, p0, 2),
                forall|s: &str| call_requires(f, (s,)),
                len == t.len(),
                0 <= k <= n,
                particles@.len() == k as int,
                self.pos as int == skip_lines(t, rows_start, k as nat),
                full == scan_rows(t, rows_start, n as nat),
                rows_inv(t, self.pos as int, k as nat, n as nat, full),
                forall|j: int|
                    0 <= j < k ==> (#[trigger] particles@[j]).name@ == full.rows[j].name,
                forall|j: int| 0 <= j < k ==> (#[trigger] particles@[j]).xyz.spec_which() == kind0,
                forall|j: int|
                    0 <= j < k ==> parses_to(
                        f,
                        full.rows[j].fx,
                        (#[trigger] particles@[j]).xyz.spec_x(),
                    ),
                forall|j: int|
                    0 <= j < k ==> parses_to(
                        f,
                        full.rows[j].fy,
                        (#[trigger] particles@[j]).xyz.spec_y(),
                    ),
                forall|j: int|
                    0 <= j < k ==> parses_to(
                        f,
                        full.rows[j].fz,
                        (#[trigger] particles@[j]).xyz.spec_z(),
                    ),
            decreases n - k,
        {
            let ghost pos_k = self.pos as int;
            let ghost rest = scan_rows(t, pos_k, (n - k) as nat);
            if self.pos >= len {
                proof {
                    assert(rest.status is Eof && rest.end == pos_k);
                }
                return Err(Error::new(ErrorKind::Io));
            }
            let line = self.take_line();
            let p = match XYZParticle::from_line(line.as_str(), self.kind, &self.parse) {
                Ok(p) => p,
                Err(e) => {
                    proof {
                        assert(line@ == line_at(t, pos_k));
                        lemma_skip_lines_snoc(t, rows_start, k as nat);
                        if e.spec_kind() is ParseError {
                            let toks = split_ws(line@);
                            assert(rest == RowScan {
                                rows: seq![mk_row(toks)] + scan_rows(
                                    t,
                                    next_pos(t, pos_k),
                                    (n - k - 1) as nat,
                                ).rows,
                                status: scan_rows(t, next_pos(t, pos_k), (n - k - 1) as nat).status,
                                end: scan_rows(t, next_pos(t, pos_k), (n - k - 1) as nat).end,
                            });
                            assert(full.rows[k as int] == mk_row(toks));
                            assert(row_parse_fails(f, full.rows[k as int]));
                            lemma_skip_lines_add(t, p0, 2, (k + 1) as nat);
                            assert(self.pos as int == skip_lines(t, p0, (3 + k) as nat));
                        }
                    }
                    return Err(e);
                },
            };
            proof {
                let toks = split_ws(line@);
                assert(line@ == line_at(t, pos_k));
                let rest2 = scan_rows(t, next_pos(t, pos_k), (n - k - 1) as nat);
                assert(rest == RowScan {
                    rows: seq![mk_row(toks)] + rest2.rows,
                    status: rest2.status,
                    end: rest2.end,
                });
                assert(full.rows[k as int] == mk_row(toks));
                assert(full.rows.take(k + 1 as int) =~= full.rows.take(k as int) + seq![
                    mk_row(toks),
                ]);
                assert(full.rows.take(k + 1 as int) + rest2.rows =~= full.rows);
                lemma_skip_lines_snoc(t, rows_start, k as nat);
            }
            particles.push(p);
            k = k + 1;
        }
        proof {
            assert(scan_rows(t, self.pos as int, 0) == RowScan {
                rows: Seq::<RawRow>::empty(),
                status: RowStatus::Done,
                end: self.pos as int,
            });
            assert(full.rows =~= full.rows.take(n as int));
            assert(full.rows.len() == n as int);
            assert(full.status is Done);
            assert(full.end == self.pos as int);
        }
        Ok(XYZSnapshot::new(comment, particles))
    }
}

/// A name as the writer renders it: left-justified and padded with spaces on
/// the right to a field of at least eight characters.
pub open spec fn spec_pad_name(name: Seq<char>) -> Seq<char> {
    if name.len() >= 8 {
        name
    } else {
        name + Seq::new((8 - name.len()) as nat, |i: int| ' ')
    }
}

/// One particle line as the writer renders it: the padded name and the three
/// fields, space-separated, with a final newline.
pub open spec fn encode_row(row: RawRow) -> Seq<char> {
    spec_pad_name(row.name) + seq![' '] + row.fx + seq![' '] + row.fy + seq![' '] + row.fz + seq![
        '\n',
    ]
}

/// The particle lines of a frame, concatenated.
pub open spec fn encode_rows(rows: Seq<RawRow>) -> Seq<char>
    decreases rows.len(),
{
    if rows.len() == 0 {
        seq![]
    } else {
        encode_row(rows[0]) + encode_rows(rows.drop_first())
    }
}

/// A whole frame as the writer renders it: the count line, the comment line,
/// then one line per row.
pub open spec fn encode_frame(comment: Seq<char>, rows: Seq<RawRow>) -> Seq<char> {
    dec_digits(rows.len()) + seq!['\n'] + comment + seq!['\n'] + encode_rows(rows)
}

/// Appending a row to a frame appends its encoding to the text.
pub proof fn lemma_encode_rows_push(rows: Seq<RawRow>, r: RawRow)
    ensures
        encode_rows(rows.push(r)) == encode_rows(rows) + encode_row(r),
    decreases rows.len(),
{
    if rows.len() == 0 {
        assert(rows.push(r)[0] == r);
        assert(rows.push(r).drop_first() =~= Seq::<RawRow>::empty());
        assert(encode_rows(Seq::<RawRow>::empty()) =~= Seq::<char>::empty());
        assert(encode_rows(rows.push(r)) == encode_row(r) + encode_rows(Seq::<RawRow>::empty()));
        assert(encode_rows(rows.push(r)) =~= encode_row(r));
        assert(encode_rows(rows) + encode_row(r) =~= encode_row(r));
    } else {
        assert(rows.push(r).drop_first() =~= rows.drop_first().push(r));
        lemma_encode_rows_push(rows.drop_first(), r);
        assert(rows.push(r)[0] == rows[0]);
        assert(encode_rows(rows.push(r)) == encode_row(rows[0]) + (encode_rows(rows.drop_first())
            + encode_row(r)));
        assert(encode_row(rows[0]) + (encode_rows(rows.drop_first()) + encode_row(r)) =~= (
        encode_row(rows[0]) + encode_rows(rows.drop_first())) + encode_row(r));
    }
}

/// Whether the scalar writer `f`, applied to the value `v`, can return the
/// text `out`.
pub open spec fn formats_to<T, F: Fn(&T) -> String>(f: F, v: T, out: Seq<char>) -> bool {
    exists|s: String| s@ == out && call_ensures(f, (&v,), s)
}

/// How the rows written for a snapshot relate to its particles: each row
/// holds the particle's name and fields the scalar writer `f` can produce
/// from its components.
pub open spec fn writes_rows<T, F: Fn(&T) -> String>(
    f: F,
    ps: Seq<XYZParticle<T>>,
    rows: Seq<RawRow>,
) -> bool {
    &&& rows.len() == ps.len()
    &&& forall|j: int| 0 <= j < ps.len() ==> (#[trigger] rows[j]).name == ps[j].name@
    &&& forall|j: int| 0 <= j < ps.len() ==> formats_to(f, ps[j].xyz.spec_x(), (#[trigger] rows[j]).fx)
    &&& forall|j: int| 0 <= j < ps.len() ==> formats_to(f, ps[j].xyz.spec_y(), (#[trigger] rows[j]).fy)
    &&& forall|j: int| 0 <= j < ps.len() ==> formats_to(f, ps[j].xyz.spec_z(), (#[trigger] rows[j]).fz)
}

/// Append `name`, left-justified in a field of at least eight characters.
fn push_padded_name(out: &mut String, name: &str)
    ensures
        final(out)@ == old(out)@ + spec_pad_name(name@),
{
    out.append(name);
    let mut l: usize = name.unicode_len();
    if l >= 8 {
        return ;
    }
    proof {
        assert(out@ =~= old(out)@ + name@ + Seq::new((l - name@.len()) as nat, |i: int| ' '));
    }
    while l < 8
        invariant
            l <= 8,
            name@.len() <= l,
            out@ == old(out)@ + name@ + Seq::new((l - name@.len()) as nat, |i: int| ' '),
        decreases 8 - l,
    {
        proof {
            reveal_strlit(" ");
        }
        out.append(" ");
        l = l + 1;
        proof {
            assert(Seq::new((l - name@.len()) as nat, |i: int| ' ') =~= Seq::new(
                (l - 1 - name@.len()) as nat,
                |i: int| ' ',
            ) + " "@);
            assert(out@ =~= old(out)@ + name@ + Seq::new((l - name@.len()) as nat, |i: int| ' '));
        }
    }
    proof {
        assert(out@ =~= old(out)@ + spec_pad_name(name@));
    }
}

/// Writes XYZ snapshots into a text buffer, one frame per call: the particle
/// count, the comment, then one fixed-shape line per particle. How a scalar
/// component becomes text is supplied per call, as the reading direction is.
pub struct XYZWriter {
    out: String,
}

impl XYZWriter {
    /// The text written so far.
    pub closed spec fn spec_out(&self) -> Seq<char> {
        self.out@
    }

    /// Construct an `XYZWriter` with an empty buffer.
    pub fn new() -> (r: Self)
        ensures
            r.spec_out() == Seq::<char>::empty(),
    {
        XYZWriter { out: String::new() }
    }

    /// Borrow the text written so far.
    pub fn output(&self) -> (r: &str)
        ensures
            r@ == self.spec_out(),
    {
        self.out.as_str()
    }

    /// Give up the writer and keep the text written.
    pub fn into_output(self) -> (r: String)
        ensures
            r@ == self.spec_out(),
    {
        self.out
    }

    /// Write one snapshot: its particle count as a decimal line, its comment
    /// line verbatim, then one line per particle, the name padded to eight
    /// characters and the components rendered by `fmt`. The writing itself
    /// cannot fail; the result mirrors the writing interface of a sink.
    pub fn write_snapshot<T, F: Fn(&T) -> String>(&mut self, ss: &XYZSnapshot<T>, fmt: &F) -> (r:
        Result<(), Error>)
        requires
            forall|v: &T| call_requires(*fmt, (v,)),
        ensures
            r is Ok,
            exists|rows: Seq<RawRow>| #![auto]
                final(self).spec_out() == old(self).spec_out() + encode_frame(ss.comment@, rows)
                    && writes_rows(*fmt, ss.particles@, rows),
    {
        let ghost start = self.out@;
        let n = ss.particles.len();
        push_decimal(&mut self.out, n);
        proof {
            reveal_strlit("\n");
        }
        self.out.append("\n");
        self.out.append(ss.comment.as_str());
        self.out.append("\n");
        let ghost head = start + dec_digits(n as nat) + seq!['\n'] + ss.comment@ + seq!['\n'];
        proof {
            assert(self.out@ =~= head);
            assert(self.out@ =~= head + encode_rows(Seq::<RawRow>::empty()));
        }
        let ghost mut rows: Seq<RawRow> = seq![];
        let mut i: usize = 0;
        while i < n
            invariant
                0 <= i <= n,
                n == ss.particles@.len(),
                rows.len() == i as int,
                head == start + dec_digits(n as nat) + seq!['\n'] + ss.comment@ + seq!['\n'],
                self.out@ == head + encode_rows(rows),
                forall|v: &T| call_requires(*fmt, (v,)),
                forall|j: int| 0 <= j < i ==> (#[trigger] rows[j]).name == ss.particles@[j].name@,
                forall|j: int|
                    0 <= j < i ==> formats_to(
                        *fmt,
                        ss.particles@[j].xyz.spec_x(),
                        (#[trigger] rows[j]).fx,
                    ),
                forall|j: int|
                    0 <= j < i ==> formats_to(
                        *fmt,
                        ss.particles@[j].xyz.spec_y(),
                        (#[trigger] rows[j]).fy,
                    ),
                forall|j: int|
                    0 <= j < i ==> formats_to(
                        *fmt,
                        ss.particles@[j].xyz.spec_z(),
                        (#[trigger] rows[j]).fz,
                    ),
            decreases n - i,
        {
            let p = &ss.particles[i];
            push_padded_name(&mut self.out, p.name.as_str());
            proof {
                reveal_strlit(" ");
                reveal_strlit("\n");
            }
            self.out.append(" ");
            let sx = fmt(p.xyz.x());
            self.out.append(sx.as_str());
            self.out.append(" ");
            let sy = fmt(p.xyz.y());
            self.out.append(sy.as_str());
            self.out.append(" ");
            let sz = fmt(p.xyz.z());
            self.out.append(sz.as_str());
            self.out.append("\n");
            let ghost row = RawRow { name: p.name@, fx: sx@, fy: sy@, fz: sz@ };
            proof {
                lemma_encode_rows_push(rows, row);
                assert(self.out@ =~= head + (encode_rows(rows) + encode_row(row)));
                rows = rows.push(row);
                assert(self.out@ =~= head + encode_rows(rows));
            }
            i = i + 1;
        }
        proof {
            assert(self.out@ =~= start + encode_frame(ss.comment@, rows));
            assert(writes_rows(*fmt, ss.particles@, rows));
        }
        Ok(())
    }
}

/// A row the writer can reproduce: all four fields are non-empty and free of
/// whitespace, as every token a reader yields is.
pub open spec fn wf_row(row: RawRow) -> bool {
    is_token(row.name) && is_token(row.fx) && is_token(row.fy) && is_token(row.fz)
}

/// A comment the writer can reproduce: free of newlines, and carrying no
/// whitespace at either end (the reader trims the comment line).
pub open spec fn wf_comment(comment: Seq<char>) -> bool {
    &&& forall|i: int| 0 <= i < comment.len() ==> comment[i] != '\n'
    &&& comment.len() == 0 || (!is_space(comment[0]) && !is_space(comment.last()))
}

/// An encoded row line (the line without its newline) splits back into
/// exactly the four tokens it was built from, and holds no newline.
#[verifier::rlimit(60)]
proof fn lemma_split_row_line(row: RawRow)
    requires
        wf_row(row),
    ensures
        ({
            let l = spec_pad_name(row.name) + seq![' '] + row.fx + seq![' '] + row.fy + seq![' ']
                + row.fz;
            &&& split_ws(l) == seq![row.name, row.fx, row.fy, row.fz]
            &&& forall|i: int| 0 <= i < l.len() ==> #[trigger] l[i] != '\n'
        }),
{
    let name = row.name;
    let pn = spec_pad_name(name);
    let l = pn + seq![' '] + row.fx + seq![' '] + row.fy + seq![' '] + row.fz;
    let nlen = name.len() as int;
    let fxs = pn.len() + 1 as int;
    let fys = fxs + row.fx.len() + 1 as int;
    let fzs = fys + row.fy.len() + 1 as int;
    assert(l.len() == fzs + row.fz.len());
    // the name, the padding and separator spaces, and the three fields, read
    // off the concatenation position by position
    assert forall|i: int| 0 <= i < nlen implies l[i] == name[i] by {}
    assert forall|i: int| nlen <= i < fxs implies l[i] == ' ' by {
        if i < pn.len() {
            assert(pn[i] == Seq::new((8 - name.len()) as nat, |m: int| ' ')[i - nlen]);
        }
    }
    assert forall|i: int| fxs <= i < fxs + row.fx.len() implies l[i] == row.fx[i - fxs] by {}
    assert(l[fys - 1] == ' ');
    assert forall|i: int| fys <= i < fys + row.fy.len() implies l[i] == row.fy[i - fys] by {}
    assert(l[fzs - 1] == ' ');
    assert forall|i: int| fzs <= i < fzs + row.fz.len() implies l[i] == row.fz[i - fzs] by {}
    // no newline anywhere: tokens are whitespace-free and padding is spaces
    assert forall|i: int| 0 <= i < l.len() implies #[trigger] l[i] != '\n' by {
        if i < nlen {
            assert(!is_space(name[i]));
        } else if i < fxs {
        } else if i < fxs + row.fx.len() {
            assert(!is_space(row.fx[i - fxs]));
        } else if i < fys + row.fy.len() {
            assert(!is_space(row.fy[i - fys]) || i == fys - 1);
        } else if i < fzs + row.fz.len() {
            assert(!is_space(row.fz[i - fzs]) || i == fzs - 1);
        }
    }
    // peel the name
    lemma_split_ws_run(l, nlen);
    assert(l.take(nlen) =~= name);
    // skip the padding and the separator
    lemma_split_ws_skip_spaces(l.skip(nlen), fxs - nlen);
    assert(l.skip(nlen).skip(fxs - nlen) =~= l.skip(fxs));
    // peel the first field
    assert forall|m: int| 0 <= m < row.fx.len() implies !is_space(#[trigger] l.skip(fxs)[m]) by {
        assert(l.skip(fxs)[m] == row.fx[m]);
    }
    assert(l.skip(fxs)[row.fx.len() as int] == ' ');
    lemma_split_ws_run(l.skip(fxs), row.fx.len() as int);
    assert(l.skip(fxs).take(row.fx.len() as int) =~= row.fx);
    assert(l.skip(fxs).skip(row.fx.len() as int) =~= l.skip(fys - 1));
    // skip the separator
    lemma_split_ws_skip_spaces(l.skip(fys - 1), 1);
    assert(l.skip(fys - 1).skip(1) =~= l.skip(fys));
    // peel the second field
    assert forall|m: int| 0 <= m < row.fy.len() implies !is_space(#[trigger] l.skip(fys)[m]) by {
        assert(l.skip(fys)[m] == row.fy[m]);
    }
    assert(l.skip(fys)[row.fy.len() as int] == ' ');
    lemma_split_ws_run(l.skip(fys), row.fy.len() as int);
    assert(l.skip(fys).take(row.fy.len() as int) =~= row.fy);
    assert(l.skip(fys).skip(row.fy.len() as int) =~= l.skip(fzs - 1));
    // skip the separator
    lemma_split_ws_skip_spaces(l.skip(fzs - 1), 1);
    assert(l.skip(fzs - 1).skip(1) =~= l.skip(fzs));
    // peel the third field, which ends the line
    assert forall|m: int| 0 <= m < row.fz.len() implies !is_space(#[trigger] l.skip(fzs)[m]) by {
        assert(l.skip(fzs)[m] == row.fz[m]);
    }
    assert(l.skip(fzs).len() == row.fz.len());
    lemma_split_ws_run(l.skip(fzs), row.fz.len() as int);
    assert(l.skip(fzs).take(row.fz.len() as int) =~= row.fz);
    assert(l.skip(fzs).skip(row.fz.len() as int) =~= Seq::<char>::empty());
    assert(split_ws(Seq::<char>::empty()) =~= Seq::<Seq<char>>::empty());
    assert(split_ws(l) =~= seq![name, row.fx, row.fy, row.fz]);
}

/// Reading back an encoded run of rows yields exactly those rows and stops
/// just past their text.
#[verifier::rlimit(60)]
proof fn lemma_rows_round_trip(text: Seq<char>, pos: int, rows: Seq<RawRow>)
    requires
        0 <= pos,
        pos + encode_rows(rows).len() <= text.len(),
        text.subrange(pos, pos + encode_rows(rows).len() as int) == encode_rows(rows),
        forall|j: int| 0 <= j < rows.len() ==> wf_row(#[trigger] rows[j]),
    ensures
        scan_rows(text, pos, rows.len()) == (RowScan {
            rows: rows,
            status: RowStatus::Done,
            end: pos + encode_rows(rows).len(),
        }),
    decreases rows.len(),
{
    let enc = encode_rows(rows);
    assert forall|i: int| 0 <= i < enc.len() implies text[pos + i] == enc[i] by {
        assert(enc[i] == text.subrange(pos, pos + enc.len() as int)[i]);
    }
    if rows.len() == 0 {
        assert(rows =~= Seq::<RawRow>::empty());
    } else {
        let row = rows[0];
        lemma_split_row_line(row);
        let l = spec_pad_name(row.name) + seq![' '] + row.fx + seq![' '] + row.fy + seq![' ']
            + row.fz;
        let e = encode_row(row);
        assert(e =~= l + seq!['\n']);
        assert(enc == e + encode_rows(rows.drop_first()));
        assert forall|m: int| pos <= m < pos + l.len() implies text[m] != '\n' by {
            assert(text[m] == enc[m - pos]);
            assert(enc[m - pos] == e[m - pos]);
            assert(e[m - pos] == l[m - pos]);
        }
        assert(text[pos + l.len()] == '\n') by {
            assert(enc[l.len() as int] == e[l.len() as int]);
        }
        lemma_line_end_at(text, pos, pos + l.len());
        assert(line_at(text, pos) =~= l);
        assert(next_pos(text, pos) == pos + e.len());
        assert(split_ws(l).len() == 4);
        assert(mk_row(split_ws(l)) == row);
        assert(text.subrange(pos + e.len(), pos + enc.len() as int) =~= encode_rows(
            rows.drop_first(),
        )) by {
            let rest = encode_rows(rows.drop_first());
            assert forall|m: int| 0 <= m < rest.len() implies text[pos + e.len() + m] == rest[m] by {
                assert(text[pos + e.len() + m] == enc[e.len() + m]);
                assert(enc[e.len() as int + m] == rest[m]);
            }
        }
        lemma_rows_round_trip(text, pos + e.len(), rows.drop_first());
        let sub = scan_rows(text, next_pos(text, pos), (rows.len() - 1) as nat);
        assert(sub == RowScan {
            rows: rows.drop_first(),
            status: RowStatus::Done,
            end: pos + e.len() + encode_rows(rows.drop_first()).len(),
        });
        assert(scan_rows(text, pos, rows.len()) == RowScan {
            rows: seq![mk_row(split_ws(l))] + sub.rows,
            status: sub.status,
            end: sub.end,
        });
        assert(seq![row] + rows.drop_first() =~= rows);
        assert(pos + e.len() + encode_rows(rows.drop_first()).len() == pos + enc.len());
    }
}

/// The round trip of one frame: the text a writer produces for a comment and
/// rows, placed at `pos`, scans back as a complete frame with that comment,
/// exactly those rows, and the cursor just past the frame -- provided the
/// comment holds no newline and is trimmed, and every field is a non-empty
/// whitespace-free token, which is what the writer's fixed-width rendering
/// needs to be read back verbatim.
#[verifier::rlimit(60)]
pub proof fn lemma_frame_round_trip(text: Seq<char>, pos: int, comment: Seq<char>, rows: Seq<RawRow>)
    requires
        0 <= pos,
        pos + encode_frame(comment, rows).len() <= text.len(),
        text.subrange(pos, pos + encode_frame(comment, rows).len() as int) == encode_frame(
            comment,
            rows,
        ),
        rows.len() <= usize::MAX,
        wf_comment(comment),
        forall|j: int| 0 <= j < rows.len() ==> wf_row(#[trigger] rows[j]),
    ensures
        scan_frame(text, pos) == (Scan::Frame {
            count: rows.len(),
            comment: comment,
            rows: RowScan {
                rows: rows,
                status: RowStatus::Done,
                end: pos + encode_frame(comment, rows).len(),
            },
        }),
{
    let n = rows.len();
    lemma_dec_digits_val(n);
    let d = dec_digits(n);
    let enc = encode_frame(comment, rows);
    assert(enc == d + seq!['\n'] + comment + seq!['\n'] + encode_rows(rows));
    assert forall|i: int| 0 <= i < enc.len() implies text[pos + i] == enc[i] by {
        assert(enc[i] == text.subrange(pos, pos + enc.len() as int)[i]);
    }
    // the header line: the digits of the count, then a newline
    assert forall|m: int| pos <= m < pos + d.len() implies text[m] != '\n' by {
        assert(text[m] == enc[m - pos]);
        assert(enc[m - pos] == d[m - pos]);
        assert(!is_space(d[m - pos]));
    }
    assert(text[pos + d.len()] == '\n') by {
        assert(enc[d.len() as int] == '\n');
    }
    lemma_line_end_at(text, pos, pos + d.len());
    assert(line_at(text, pos) =~= d);
    lemma_trim_id(d);
    let p1 = pos + d.len() + 1;
    assert(next_pos(text, pos) == p1);
    // the comment line, verbatim, then a newline
    assert forall|m: int| p1 <= m < p1 + comment.len() implies text[m] != '\n' by {
        assert(text[m] == enc[m - pos]);
        assert(enc[m - pos] == comment[m - p1]);
    }
    assert(text[p1 + comment.len()] == '\n') by {
        assert(enc[d.len() as int + 1 + comment.len() as int] == '\n');
    }
    lemma_line_end_at(text, p1, p1 + comment.len());
    assert(line_at(text, p1) =~= comment) by {
        assert forall|m: int| 0 <= m < comment.len() implies text[p1 + m] == comment[m] by {
            assert(text[p1 + m] == enc[p1 + m - pos]);
            assert(enc[d.len() as int + 1 + m] == comment[m]);
        }
    }
    lemma_trim_id(comment);
    assert(p1 < text.len());
    let p2 = p1 + comment.len() + 1;
    assert(next_pos(text, p1) == p2);
    // the particle lines
    assert(text.subrange(p2, pos + enc.len() as int) =~= encode_rows(rows)) by {
        assert forall|m: int| 0 <= m < encode_rows(rows).len() implies text[p2 + m] == encode_rows(
            rows,
        )[m] by {
            assert(text[p2 + m] == enc[p2 + m - pos]);
            assert(enc[p2 + m - pos] == encode_rows(rows)[m]);
        }
    }
    lemma_rows_round_trip(text, p2, rows);
    assert(p2 + encode_rows(rows).len() == pos + enc.len());
    assert(count_val(trim(line_at(text, pos))) == n);
}

impl<T: Copy> Particle<T> for XYZParticle<T> {
    type Value = T;

    open spec fn spec_mass(&self) -> Option<T> {
        None
    }

    open spec fn spec_pos(&self) -> Option<(T, T, T)> {
        if self.xyz.spec_which() == CoordKind::Position {
            Some((self.xyz.spec_x(), self.xyz.spec_y(), self.xyz.spec_z()))
        } else {
            None
        }
    }

    open spec fn spec_vel(&self) -> Option<(T, T, T)> {
        if self.xyz.spec_which() == CoordKind::Velocity {
            Some((self.xyz.spec_x(), self.xyz.spec_y(), self.xyz.spec_z()))
        } else {
            None
        }
    }

    open spec fn spec_force(&self) -> Option<(T, T, T)> {
        if self.xyz.spec_which() == CoordKind::Force {
            Some((self.xyz.spec_x(), self.xyz.spec_y(), self.xyz.spec_z()))
        } else {
            None
        }
    }

    open spec fn spec_attribute(&self, name: Seq<char>) -> Option<Attribute<T>> {
        if name == "name"@ {
            Some(Attribute::Text(self.name))
        } else {
            None
        }
    }

    /// The XYZ format stores no mass.
    fn mass(&self) -> Option<T> {
        None
    }

    fn pos(&self) -> Option<(T, T, T)> {
        match &self.xyz {
            Coordinate::Position { x, y, z } => Some((*x, *y, *z)),
            _ => None,
        }
    }

    fn vel(&self) -> Option<(T, T, T)> {
        match &self.xyz {
            Coordinate::Velocity { x, y, z } => Some((*x, *y, *z)),
            _ => None,
        }
    }

    fn force(&self) -> Option<(T, T, T)> {
        match &self.xyz {
            Coordinate::Force { x, y, z } => Some((*x, *y, *z)),
            _ => None,
        }
    }

    /// The one attribute an XYZ particle carries is its name.
    fn attribute(&self, name: &str) -> Option<Attribute<T>> {
        if str_eq(name, "name") {
            Some(Attribute::Text(self.name.clone()))
        } else {
            None
        }
    }
}

impl<T: Copy> Snapshot<T> for XYZSnapshot<T> {
    type Value = T;

    open spec fn spec_len(&self) -> nat {
        self.particles@.len()
    }

    open spec fn spec_masses(&self) -> Option<Seq<T>> {
        if forall|i: int|
            0 <= i < self.particles@.len() ==> (#[trigger] self.particles@[i]).spec_mass()
                is Some {
            Some(Seq::new(self.particles@.len(), |i: int| self.particles@[i].spec_mass()->0))
        } else {
            None
        }
    }

    open spec fn spec_positions(&self) -> Option<Seq<(T, T, T)>> {
        if forall|i: int|
            0 <= i < self.particles@.len() ==> (#[trigger] self.particles@[i]).spec_pos()
                is Some {
            Some(Seq::new(self.particles@.len(), |i: int| self.particles@[i].spec_pos()->0))
        } else {
            None
        }
    }

    open spec fn spec_velocities(&self) -> Option<Seq<(T, T, T)>> {
        if forall|i: int|
            0 <= i < self.particles@.len() ==> (#[trigger] self.particles@[i]).spec_vel()
                is Some {
            Some(Seq::new(self.particles@.len(), |i: int| self.particles@[i].spec_vel()->0))
        } else {
            None
        }
    }

    open spec fn spec_forces(&self) -> Option<Seq<(T, T, T)>> {
        if forall|i: int|
            0 <= i < self.particles@.len() ==> (#[trigger] self.particles@[i]).spec_force()
                is Some {
            Some(Seq::new(self.particles@.len(), |i: int| self.particles@[i].spec_force()->0))
        } else {
            None
        }
    }

    open spec fn spec_attributes(&self, name: Seq<char>) -> Option<Seq<Attribute<T>>> {
        if forall|i: int|
            0 <= i < self.particles@.len() ==> (#[trigger] self.particles@[i]).spec_attribute(name)
                is Some {
            Some(
                Seq::new(self.particles@.len(), |i: int| self.particles@[i].spec_attribute(name)->0),
            )
        } else {
            None
        }
    }

    fn len(&self) -> usize {
        self.particles.len()
    }

    /// An XYZ file stores no masses, so the column exists only for the empty
    /// snapshot, where there is nothing to lack.
    fn masses(&self) -> (r: Option<Vec<T>>) {
        let mut out: Vec<T> = Vec::new();
        let mut i: usize = 0;
        while i < self.particles.len()
            invariant
                0 <= i <= self.particles@.len(),
                out@.len() == i as int,
                forall|j: int|
                    0 <= j < i ==> (#[trigger] self.particles@[j]).spec_mass() is Some && out@[j]
                        == self.particles@[j].spec_mass()->0,
            decreases self.particles@.len() - i,
        {
            match self.particles[i].mass() {
                Some(v) => {
                    out.push(v);
                },
                None => {
                    return None;
                },
            }
            i = i + 1;
        }
        proof {
            assert(out@ =~= Seq::new(
                self.particles@.len(),
                |i: int| self.particles@[i].spec_mass()->0,
            ));
        }
        Some(out)
    }

    fn positions(&self) -> (r: Option<Vec<(T, T, T)>>) {
        let mut out: Vec<(T, T, T)> = Vec::new();
        let mut i: usize = 0;
        while i < self.particles.len()
            invariant
                0 <= i <= self.particles@.len(),
                out@.len() == i as int,
                forall|j: int|
                    0 <= j < i ==> (#[trigger] self.particles@[j]).spec_pos() is Some && out@[j]
                        == self.particles@[j].spec_pos()->0,
            decreases self.particles@.len() - i,
        {
            match self.particles[i].pos() {
                Some(v) => {
                    out.push(v);
                },
                None => {
                    return None;
                },
            }
            i = i + 1;
        }
        proof {
            assert(out@ =~= Seq::new(
                self.particles@.len(),
                |i: int| self.particles@[i].spec_pos()->0,
            ));
        }
        Some(out)
    }

    fn velocities(&self) -> (r: Option<Vec<(T, T, T)>>) {
        let mut out: Vec<(T, T, T)> = Vec::new();
        let mut i: usize = 0;
        while i < self.particles.len()
            invariant
                0 <= i <= self.particles@.len(),
                out@.len() == i as int,
                forall|j: int|
                    0 <= j < i ==> (#[trigger] self.particles@[j]).spec_vel() is Some && out@[j]
                        == self.particles@[j].spec_vel()->0,
            decreases self.particles@.len() - i,
        {
            match self.particles[i].vel() {
                Some(v) => {
                    out.push(v);
                },
                None => {
                    return None;
                },
            }
            i = i + 1;
        }
        proof {
            assert(out@ =~= Seq::new(
                self.particles@.len(),
                |i: int| self.particles@[i].spec_vel()->0,
            ));
        }
        Some(out)
    }

    fn forces(&self) -> (r: Option<Vec<(T, T, T)>>) {
        let mut out: Vec<(T, T, T)> = Vec::new();
        let mut i: usize = 0;
        while i < self.particles.len()
            invariant
                0 <= i <= self.particles@.len(),
                out@.len() == i as int,
                forall|j: int|
                    0 <= j < i ==> (#[trigger] self.particles@[j]).spec_force() is Some && out@[j]
                        == self.particles@[j].spec_force()->0,
            decreases self.particles@.len() - i,
        {
            match self.particles[i].force() {
                Some(v) => {
                    out.push(v);
                },
                None => {
                    return None;
                },
            }
            i = i + 1;
        }
        proof {
            assert(out@ =~= Seq::new(
                self.particles@.len(),
                |i: int| self.particles@[i].spec_force()->0,
            ));
        }
        Some(out)
    }

    fn attributes(&self, name: &str) -> (r: Option<Vec<Attribute<T>>>) {
        let mut out: Vec<Attribute<T>> = Vec::new();
        let mut i: usize = 0;
        while i < self.particles.len()
            invariant
                0 <= i <= self.particles@.len(),
                out@.len() == i as int,
                forall|j: int|
                    0 <= j < i ==> (#[trigger] self.particles@[j]).spec_attribute(name@) is Some
                        && out@[j] == self.particles@[j].spec_attribute(name@)->0,
            decreases self.particles@.len() - i,
        {
            match self.particles[i].attribute(name) {
                Some(v) => {
                    out.push(v);
                },
                None => {
                    return None;
                },
            }
            i = i + 1;
        }
        proof {
            assert(out@ =~= Seq::new(
                self.particles@.len(),
                |i: int| self.particles@[i].spec_attribute(name@)->0,
            ));
        }
        Some(out)
    }
}

/// A successful read never yields a short snapshot: when `read_snapshot`
/// returns `Ok`, the frame's declared count was read in full, and the
/// snapshot holds exactly that many particles. A frame with fewer lines than
/// its header declares can only end in an error.
pub proof fn lemma_no_short_snapshot<T, F: Fn(&str) -> Option<T>>(
    text: Seq<char>,
    pos: int,
    kind: CoordKind,
    f: F,
    ss: XYZSnapshot<T>,
    pos2: int,
)
    requires
        read_outcome(text, pos, kind, f, Ok::<XYZSnapshot<T>, Error>(ss), pos2),
    ensures
        scan_frame(text, pos) matches Scan::Frame { count, comment, rows }
            && ss.particles@.len() == count && rows.status is Done,
{
    match scan_frame(text, pos) {
        Scan::Frame { count, comment, rows } => {
            lemma_scan_rows_len(text, skip_lines(text, pos, 2), count);
            assert(skip_lines(text, pos, 2) == next_pos(text, next_pos(text, pos))) by {
                lemma_skip_lines_snoc(text, pos, 1);
                lemma_skip_lines_snoc(text, pos, 0);
            }
        },
        _ => {},
    }
}

/// Every row a scan yields is well-formed: its four fields are the tokens of
/// a line, so they are non-empty and whitespace-free. A snapshot read back
/// from text therefore satisfies everything the round trip of
/// [`lemma_frame_round_trip`] asks of its rows: what a reader yields, a
/// writer can reproduce.
pub proof fn lemma_scan_rows_wf(text: Seq<char>, pos: int, n: nat)
    ensures
        forall|j: int|
            0 <= j < scan_rows(text, pos, n).rows.len() ==> wf_row(
                #[trigger] scan_rows(text, pos, n).rows[j],
            ),
    decreases n,
{
    if n > 0 && pos < text.len() {
        let l = line_at(text, pos);
        if split_ws(l).len() == 4 {
            lemma_split_ws_tokens(l);
            assert(wf_row(mk_row(split_ws(l))));
            lemma_scan_rows_wf(text, next_pos(text, pos), (n - 1) as nat);
            let r = scan_rows(text, next_pos(text, pos), (n - 1) as nat);
            assert forall|j: int| 0 <= j < scan_rows(text, pos, n).rows.len() implies wf_row(
                #[trigger] scan_rows(text, pos, n).rows[j],
            ) by {
                if j > 0 {
                    assert(scan_rows(text, pos, n).rows[j] == r.rows[j - 1]);
                }
            }
        }
    }
}


/// The round trip, seen from the reader: on text that a writer produced for
/// `comment` and `rows` (placed at `pos`, with anything after it), a
/// `read_snapshot` with any kind and any scalar reader either returns a
/// snapshot that carries the written comment, names and fields exactly, and
/// stops just past the frame -- or fails with `ParseError`, the one failure
/// the scalar reader alone can cause. No structural failure is possible.
pub proof fn lemma_round_trip_read<T, F: Fn(&str) -> Option<T>>(
    text: Seq<char>,
    pos: int,
    comment: Seq<char>,
    rows: Seq<RawRow>,
    kind: CoordKind,
    f: F,
    r: Result<XYZSnapshot<T>, Error>,
    pos2: int,
)
    requires
        0 <= pos,
        pos + encode_frame(comment, rows).len() <= text.len(),
        text.subrange(pos, pos + encode_frame(comment, rows).len() as int) == encode_frame(
            comment,
            rows,
        ),
        rows.len() <= usize::MAX,
        wf_comment(comment),
        forall|j: int| 0 <= j < rows.len() ==> wf_row(#[trigger] rows[j]),
        read_outcome(text, pos, kind, f, r, pos2),
    ensures
        match r {
            Ok(ss) => good_snapshot(ss, comment, rows, kind, f) && pos2 == pos + encode_frame(
                comment,
                rows,
            ).len(),
            Err(e) => e.spec_kind() == ErrorKind::ParseError && exists|j: int|
                0 <= j < rows.len() && row_parse_fails(f, #[trigger] rows[j]),
        },
{
    lemma_frame_round_trip(text, pos, comment, rows);
}

} // verus!
