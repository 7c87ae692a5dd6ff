use vstd::prelude::*;

use crate::ParseError;
use crate::counter::{CounterV, FooterDetail, counter_zero, decode_block_spec};
use crate::datetime::{DateTime, chrono_parse, epoch_v, parse_datetime};
use crate::text::{is_rule_line, is_rule_line_spec, kv_split, kv_split_spec, str_eq};

verus! {

/// The header fields of one copy run, filled in while the parser walks the
/// run's header section.
pub struct RunHeader {
    pub started: DateTime,
    pub source: String,
    pub dest: String,
    pub files: String,
    pub options: String,
}

/// The mathematical content of a `RunHeader`.
pub struct HeaderV {
    pub started: (int, int, int, int, int, int),
    pub source: Seq<char>,
    pub dest: Seq<char>,
    pub files: Seq<char>,
    pub options: Seq<char>,
}

impl View for RunHeader {
    type V = HeaderV;

    open spec fn view(&self) -> HeaderV {
        HeaderV {
            started: self.started@,
            source: self.source@,
            dest: self.dest@,
            files: self.files@,
            options: self.options@,
        }
    }
}

impl DeepView for RunHeader {
    type V = HeaderV;

    open spec fn deep_view(&self) -> HeaderV {
        self.view()
    }
}

/// The empty header a run starts from.
pub open spec fn header_empty() -> HeaderV {
    HeaderV {
        started: epoch_v(),
        source: Seq::empty(),
        dest: Seq::empty(),
        files: Seq::empty(),
        options: Seq::empty(),
    }
}

/// The footer fields of one copy run, filled in while the parser walks the
/// run's footer section.
pub struct RunFooter {
    pub ended: DateTime,
    pub dirs: FooterDetail,
    pub files: FooterDetail,
    pub bytes: FooterDetail,
    pub times: String,
}

/// The mathematical content of a `RunFooter`.
pub struct FooterV {
    pub ended: (int, int, int, int, int, int),
    pub dirs: CounterV,
    pub files: CounterV,
    pub bytes: CounterV,
    pub times: Seq<char>,
}

impl View for RunFooter {
    type V = FooterV;

    open spec fn view(&self) -> FooterV {
        FooterV {
            ended: self.ended@,
            dirs: self.dirs@,
            files: self.files@,
            bytes: self.bytes@,
            times: self.times@,
        }
    }
}

impl DeepView for RunFooter {
    type V = FooterV;

    open spec fn deep_view(&self) -> FooterV {
        self.view()
    }
}

/// The empty footer a run starts from.
pub open spec fn footer_empty() -> FooterV {
    FooterV {
        ended: epoch_v(),
        dirs: counter_zero(),
        files: counter_zero(),
        bytes: counter_zero(),
        times: Seq::empty(),
    }
}

/// One finished copy run: the pairing of its header and its footer.
pub struct RunRecord {
    pub header: RunHeader,
    pub footer: RunFooter,
}

/// The mathematical content of a `RunRecord`.
pub struct RecordV {
    pub header: HeaderV,
    pub footer: FooterV,
}

impl View for RunRecord {
    type V = RecordV;

    open spec fn view(&self) -> RecordV {
        RecordV { header: self.header@, footer: self.footer@ }
    }
}

impl DeepView for RunRecord {
    type V = RecordV;

    open spec fn deep_view(&self) -> RecordV {
        self.view()
    }
}

/// The section the parser is in, advanced cyclically by rule lines:
/// Reset, then Title, Header, Context, Footer, then Title again.
#[derive(Clone, Copy, PartialEq, Eq, Structural, Debug)]
pub enum LineStatus {
    Reset,
    Title,
    Header,
    Context,
    Footer,
}

/// The run-start timestamp label, in its localized and English spellings.
pub open spec fn is_started_label(k: Seq<char>) -> bool {
    k == "開始"@ || k == "Started"@
}

/// The source-path label.
pub open spec fn is_source_label(k: Seq<char>) -> bool {
    k == "コピー元"@ || k == "Source"@
}

/// The destination-path label.
pub open spec fn is_dest_label(k: Seq<char>) -> bool {
    k == "コピー先"@ || k == "Dest"@
}

/// The file-specification label of the header section, and the file
/// counter label of the footer section.
pub open spec fn is_files_label(k: Seq<char>) -> bool {
    k == "ファイル"@ || k == "Files"@
}

/// The options label.
pub open spec fn is_options_label(k: Seq<char>) -> bool {
    k == "オプション"@ || k == "Options"@
}

/// The directory counter label of the footer section.
pub open spec fn is_dirs_label(k: Seq<char>) -> bool {
    k == "ディレクトリ"@ || k == "Dirs"@
}

/// The byte counter label of the footer section.
pub open spec fn is_bytes_label(k: Seq<char>) -> bool {
    k == "バイト"@ || k == "Bytes"@
}

/// The elapsed-times label of the footer section.
pub open spec fn is_times_label(k: Seq<char>) -> bool {
    k == "時刻"@ || k == "Times"@
}

/// The run-end timestamp label of the footer section.
pub open spec fn is_ended_label(k: Seq<char>) -> bool {
    k == "終了"@ || k == "Ended"@
}

/// How one recognized `label: value` line of the header section changes the
/// header: a start timestamp is parsed under the configured format and a
/// mismatch is fatal; the other labels store the value verbatim; an
/// unrecognized label changes nothing.
pub open spec fn header_update(h: HeaderV, fmt: Seq<char>, k: Seq<char>, v: Seq<char>) -> Result<
    HeaderV,
    ParseError,
> {
    if is_started_label(k) {
        match chrono_parse(v, fmt) {
            Some(t) => Ok(HeaderV { started: t, ..h }),
            None => Err(ParseError::MalformedTimestamp),
        }
    } else if is_source_label(k) {
        Ok(HeaderV { source: v, ..h })
    } else if is_dest_label(k) {
        Ok(HeaderV { dest: v, ..h })
    } else if is_files_label(k) {
        Ok(HeaderV { files: v, ..h })
    } else if is_options_label(k) {
        Ok(HeaderV { options: v, ..h })
    } else {
        Ok(h)
    }
}

/// How one recognized `label: value` line of the footer section changes the
/// footer: counter labels decode the value as a six-field counter block and
/// a decode failure is fatal; the end timestamp is parsed under the
/// configured format; the times label stores the value verbatim; an
/// unrecognized label changes nothing.
pub open spec fn footer_update(f: FooterV, fmt: Seq<char>, k: Seq<char>, v: Seq<char>) -> Result<
    FooterV,
    ParseError,
> {
    if is_dirs_label(k) {
        match decode_block_spec(v) {
            Ok(c) => Ok(FooterV { dirs: c, ..f }),
            Err(e) => Err(e),
        }
    } else if is_files_label(k) {
        match decode_block_spec(v) {
            Ok(c) => Ok(FooterV { files: c, ..f }),
            Err(e) => Err(e),
        }
    } else if is_bytes_label(k) {
        match decode_block_spec(v) {
            Ok(c) => Ok(FooterV { bytes: c, ..f }),
            Err(e) => Err(e),
        }
    } else if is_times_label(k) {
        Ok(FooterV { times: v, ..f })
    } else if is_ended_label(k) {
        match chrono_parse(v, fmt) {
            Some(t) => Ok(FooterV { ended: t, ..f }),
            None => Err(ParseError::MalformedTimestamp),
        }
    } else {
        Ok(f)
    }
}

/// The mathematical state of the line parser: the section it is in, the
/// run record it is accumulating, and the configured timestamp format.
pub struct ParserV {
    pub status: LineStatus,
    pub header: HeaderV,
    pub footer: FooterV,
    pub fmt: Seq<char>,
}

/// The state a fresh parser starts in.
pub open spec fn parser_init(fmt: Seq<char>) -> ParserV {
    ParserV { status: LineStatus::Reset, header: header_empty(), footer: footer_empty(), fmt }
}

/// One step of the parser on one line. A rule line advances the section; a
/// rule line seen in the footer section also emits the finished record and
/// resets the accumulator. Non-rule lines are ignored outside the header
/// and footer sections, and interpreted as `label: value` lines inside
/// them; a line without a colon is ignored there too.
pub open spec fn step_spec(p: ParserV, line: Seq<char>) -> Result<
    (ParserV, Option<RecordV>),
    ParseError,
> {
    match p.status {
        LineStatus::Reset => Ok(
            (
                if is_rule_line_spec(line) {
                    ParserV { status: LineStatus::Title, ..p }
                } else {
                    p
                },
                None,
            ),
        ),
        LineStatus::Title => Ok(
            (
                if is_rule_line_spec(line) {
                    ParserV { status: LineStatus::Header, ..p }
                } else {
                    p
                },
                None,
            ),
        ),
        LineStatus::Header => {
            if is_rule_line_spec(line) {
                Ok((ParserV { status: LineStatus::Context, ..p }, None))
            } else {
                match kv_split_spec(line) {
                    Some(kv) => match header_update(p.header, p.fmt, kv.0, kv.1) {
                        Ok(h) => Ok((ParserV { header: h, ..p }, None)),
                        Err(e) => Err(e),
                    },
                    None => Ok((p, None)),
                }
            }
        },
        LineStatus::Context => Ok(
            (
                if is_rule_line_spec(line) {
                    ParserV { status: LineStatus::Footer, ..p }
                } else {
                    p
                },
                None,
            ),
        ),
        LineStatus::Footer => {
            if is_rule_line_spec(line) {
                Ok(
                    (
                        ParserV {
                            status: LineStatus::Title,
                            header: header_empty(),
                            footer: footer_empty(),
                            fmt: p.fmt,
                        },
                        Some(RecordV { header: p.header, footer: p.footer }),
                    ),
                )
            } else {
                match kv_split_spec(line) {
                    Some(kv) => match footer_update(p.footer, p.fmt, kv.0, kv.1) {
                        Ok(f) => Ok((ParserV { footer: f, ..p }, None)),
                        Err(e) => Err(e),
                    },
                    None => Ok((p, None)),
                }
            }
        },
    }
}

/// The records and final error of running the parser from state `p` over
/// the remaining lines: each step may emit a record; an error stops the
/// run, keeping the records emitted before it; when the input ends in the
/// footer section the in-progress record is emitted as well, and in any
/// other section it is dropped.
pub open spec fn run_model(p: ParserV, lines: Seq<Seq<char>>) -> (Seq<RecordV>, Option<ParseError>)
    decreases lines.len(),
{
    if lines.len() == 0 {
        (
            if p.status is Footer {
                seq![RecordV { header: p.header, footer: p.footer }]
            } else {
                Seq::empty()
            },
            None,
        )
    } else {
        match step_spec(p, lines[0]) {
            Ok((q, emitted)) => {
                let rest = run_model(q, lines.drop_first());
                match emitted {
                    Some(rec) => (seq![rec] + rest.0, rest.1),
                    None => rest,
                }
            },
            Err(e) => (Seq::empty(), Some(e)),
        }
    }
}

/// The line parser: it owns the single in-progress run record and replaces
/// it wholesale when a new run begins.
pub struct LogParser {
    pub status: LineStatus,
    pub header: RunHeader,
    pub footer: RunFooter,
    pub date_format: String,
}

impl View for LogParser {
    type V = ParserV;

    open spec fn view(&self) -> ParserV {
        ParserV {
            status: self.status,
            header: self.header@,
            footer: self.footer@,
            fmt: self.date_format@,
        }
    }
}

/// A run header with every field empty.
fn new_header() -> (h: RunHeader)
    ensures
        h@ == header_empty(),
{
    RunHeader {
        started: DateTime::default(),
        source: String::new(),
        dest: String::new(),
        files: String::new(),
        options: String::new(),
    }
}

/// A run footer with every field empty.
fn new_footer() -> (f: RunFooter)
    ensures
        f@ == footer_empty(),
{
    RunFooter {
        ended: DateTime::default(),
        dirs: FooterDetail::default(),
        files: FooterDetail::default(),
        bytes: FooterDetail::default(),
        times: String::new(),
    }
}

impl LogParser {
    /// A fresh parser for one log file, with the timestamp format its
    /// header and footer sections use.
    pub fn new(date_format: &str) -> (p: Self)
        ensures
            p@ == parser_init(date_format@),
    {
        LogParser {
            status: LineStatus::Reset,
            header: new_header(),
            footer: new_footer(),
            date_format: date_format.to_owned(),
        }
    }

    /// Consumes one line, as `step_spec` describes: the result carries the
    /// record finished by this line, if any; on an error the parser is
    /// left unchanged.
    pub fn feed_line(&mut self, line: &str) -> (r: Result<Option<RunRecord>, ParseError>)
        ensures
            match r {
                Ok(Some(rec)) => step_spec(old(self)@, line@) == Ok::<
                    (ParserV, Option<RecordV>),
                    ParseError,
                >((final (self)@, Some(rec@))),
                Ok(None) => step_spec(old(self)@, line@) == Ok::<
                    (ParserV, Option<RecordV>),
                    ParseError,
                >((final (self)@, None)),
                Err(e) => step_spec(old(self)@, line@) == Err::<
                    (ParserV, Option<RecordV>),
                    ParseError,
                >(e) && final (self)@ == old(self)@,
            },
    {
        match self.status {
            LineStatus::Reset => {
                if is_rule_line(line) {
                    self.status = LineStatus::Title;
                }
                Ok(None)
            },
            LineStatus::Title => {
                if is_rule_line(line) {
                    self.status = LineStatus::Header;
                }
                Ok(None)
            },
            LineStatus::Header => {
                if is_rule_line(line) {
                    self.status = LineStatus::Context;
                    return Ok(None);
                }
                match kv_split(line) {
                    Some((k, v)) => {
                        if str_eq(k, "開始") || str_eq(k, "Started") {
                            match parse_datetime(v, self.date_format.as_str()) {
                                Some(dt) => {
                                    self.header.started = dt;
                                    Ok(None)
                                },
                                None => Err(ParseError::MalformedTimestamp),
                            }
                        } else if str_eq(k, "コピー元") || str_eq(k, "Source") {
                            self.header.source = v.to_owned();
                            Ok(None)
                        } else if str_eq(k, "コピー先") || str_eq(k, "Dest") {
                            self.header.dest = v.to_owned();
                            Ok(None)
                        } else if str_eq(k, "ファイル") || str_eq(k, "Files") {
                            self.header.files = v.to_owned();
                            Ok(None)
                        } else if str_eq(k, "オプション") || str_eq(k, "Options") {
                            self.header.options = v.to_owned();
                            Ok(None)
                        } else {
                            Ok(None)
                        }
                    },
                    None => Ok(None),
                }
            },
            LineStatus::Context => {
                if is_rule_line(line) {
                    self.status = LineStatus::Footer;
                }
                Ok(None)
            },
            LineStatus::Footer => {
                if is_rule_line(line) {
                    let rec = RunRecord {
                        header: RunHeader {
                            started: self.header.started,
                            source: self.header.source.clone(),
                            dest: self.header.dest.clone(),
                            files: self.header.files.clone(),
                            options: self.header.options.clone(),
                        },
                        footer: RunFooter {
                            ended: self.footer.ended,
                            dirs: self.footer.dirs,
                            files: self.footer.files,
                            bytes: self.footer.bytes,
                            times: self.footer.times.clone(),
                        },
                    };
                    self.header = new_header();
                    self.footer = new_footer();
                    self.status = LineStatus::Title;
                    return Ok(Some(rec));
                }
                match kv_split(line) {
                    Some((k, v)) => {
                        if str_eq(k, "ディレクトリ") || str_eq(k, "Dirs") {
                            match FooterDetail::from_str(v) {
                                Ok(c) => {
                                    self.footer.dirs = c;
                                    Ok(None)
                                },
                                Err(e) => Err(e),
                            }
                        } else if str_eq(k, "ファイル") || str_eq(k, "Files") {
                            match FooterDetail::from_str(v) {
                                Ok(c) => {
                                    self.footer.files = c;
                                    Ok(None)
                                },
                                Err(e) => Err(e),
                            }
                        } else if str_eq(k, "バイト") || str_eq(k, "Bytes") {
                            match FooterDetail::from_str(v) {
                                Ok(c) => {
                                    self.footer.bytes = c;
                                    Ok(None)
                                },
                                Err(e) => Err(e),
                            }
                        } else if str_eq(k, "時刻") || str_eq(k, "Times") {
                            self.footer.times = v.to_owned();
                            Ok(None)
                        } else if str_eq(k, "終了") || str_eq(k, "Ended") {
                            match parse_datetime(v, self.date_format.as_str()) {
                                Some(dt) => {
                                    self.footer.ended = dt;
                                    Ok(None)
                                },
                                None => Err(ParseError::MalformedTimestamp),
                            }
                        } else {
                            Ok(None)
                        }
                    },
                    None => Ok(None),
                }
            },
        }
    }

    /// The end-of-input record: the in-progress record when the input
    /// stopped inside the footer section, and nothing otherwise.
    pub fn finish(&self) -> (r: Option<RunRecord>)
        ensures
            match r {
                Some(rec) => self@.status is Footer && rec@ == (RecordV {
                    header: self@.header,
                    footer: self@.footer,
                }),
                None => !(self@.status is Footer),
            },
    {
        if self.status == LineStatus::Footer {
            Some(
                RunRecord {
                    header: RunHeader {
                        started: self.header.started,
                        source: self.header.source.clone(),
                        dest: self.header.dest.clone(),
                        files: self.header.files.clone(),
                        options: self.header.options.clone(),
                    },
                    footer: RunFooter {
                        ended: self.footer.ended,
                        dirs: self.footer.dirs,
                        files: self.footer.files,
                        bytes: self.footer.bytes,
                        times: self.footer.times.clone(),
                    },
                },
            )
        } else {
            None
        }
    }
}

/// Parses a whole log file, given as its ordered lines, under the
/// configured input timestamp format: the records of the runs completed in
/// file order, and the fatal error that stopped the parse, if one did.
/// Records completed before the error are kept.
pub fn parse_runs(lines: &Vec<String>, date_format: &str) -> (out: (
    Vec<RunRecord>,
    Option<ParseError>,
))
    ensures
        ({
            let m = run_model(parser_init(date_format@), lines.deep_view());
            out.0.deep_view() == m.0 && out.1 == m.1
        }),
{
    let ghost all = lines.deep_view();
    let mut records: Vec<RunRecord> = Vec::new();
    let mut p = LogParser::new(date_format);
    let mut i: usize = 0;
    proof {
        assert(all.skip(0) =~= all);
        assert(records.deep_view() =~= Seq::<RecordV>::empty());
        assert(records.deep_view() + run_model(p@, all).0 =~= run_model(p@, all).0);
    }
    while i < lines.len()
        invariant
            0 <= i <= lines.len(),
            all == lines.deep_view(),
            all.len() == lines.len(),
            ({
                let rest = run_model(p@, all.skip(i as int));
                run_model(parser_init(date_format@), all) == (
                    records.deep_view() + rest.0,
                    rest.1,
                )
            }),
        decreases lines.len() - i,
    {
        let ghost pre = p@;
        let ghost recs_pre = records.deep_view();
        proof {
            assert(all.skip(i as int)[0] == all[i as int]);
            assert(all.skip(i as int).drop_first() =~= all.skip(i as int + 1));
            assert(all[i as int] == lines@[i as int]@);
        }
        match p.feed_line(lines[i].as_str()) {
            Ok(Some(rec)) => {
                records.push(rec);
                proof {
                    assert(records.deep_view() =~= recs_pre.push(rec@));
                    let rest = run_model(p@, all.skip(i as int + 1));
                    assert(run_model(pre, all.skip(i as int)) == (
                        seq![rec@] + rest.0,
                        rest.1,
                    ));
                    assert(recs_pre + (seq![rec@] + rest.0) =~= records.deep_view() + rest.0);
                }
            },
            Ok(None) => {},
            Err(e) => {
                proof {
                    assert(run_model(pre, all.skip(i as int)) == (
                        Seq::<RecordV>::empty(),
                        Some(e),
                    ));
                    assert(recs_pre + Seq::<RecordV>::empty() =~= recs_pre);
                }
                return (records, Some(e));
            },
        }
        i += 1;
    }
    proof {
        assert(all.skip(i as int) =~= Seq::<Seq<char>>::empty());
    }
    let ghost recs_pre = records.deep_view();
    match p.finish() {
        Some(rec) => {
            records.push(rec);
            proof {
                assert(records.deep_view() =~= recs_pre.push(rec@));
                assert(recs_pre.push(rec@) =~= recs_pre + seq![rec@]);
            }
        },
        None => {
            proof {
                assert(recs_pre + Seq::<RecordV>::empty() =~= recs_pre);
            }
        },
    }
    (records, None)
}

/// A log without a single rule line yields no records and no error: every
/// line is ignored in the initial section, so no run ever starts.
pub proof fn lemma_no_rule_lines_no_records(fmt: Seq<char>, lines: Seq<Seq<char>>)
    requires
        forall|i: int| 0 <= i < lines.len() ==> !is_rule_line_spec(lines[i]),
    ensures
        run_model(parser_init(fmt), lines) == (Seq::<RecordV>::empty(), None::<ParseError>),
    decreases lines.len(),
{
    if lines.len() > 0 {
        assert(step_spec(parser_init(fmt), lines[0]) == Ok::<
            (ParserV, Option<RecordV>),
            ParseError,
        >((parser_init(fmt), None)));
        assert forall|i: int| 0 <= i < lines.drop_first().len() implies !is_rule_line_spec(
            lines.drop_first()[i],
        ) by {
            assert(lines.drop_first()[i] == lines[i + 1]);
        }
        lemma_no_rule_lines_no_records(fmt, lines.drop_first());
    }
}

/// The records that the parser's steps emit while consuming `lines` from
/// state `p`, not counting the end-of-input record; an error cuts the
/// sequence off.
pub open spec fn emitted_during(p: ParserV, lines: Seq<Seq<char>>) -> Seq<RecordV>
    decreases lines.len(),
{
    if lines.len() == 0 {
        Seq::empty()
    } else {
        match step_spec(p, lines[0]) {
            Ok((q, emitted)) => (match emitted {
                Some(rec) => seq![rec],
                None => Seq::empty(),
            }) + emitted_during(q, lines.drop_first()),
            Err(_) => Seq::empty(),
        }
    }
}

/// The parser state after consuming `lines` from state `p`, or the error
/// that stopped it.
pub open spec fn state_after(p: ParserV, lines: Seq<Seq<char>>) -> Result<ParserV, ParseError>
    decreases lines.len(),
{
    if lines.len() == 0 {
        Ok(p)
    } else {
        match step_spec(p, lines[0]) {
            Ok((q, emitted)) => state_after(q, lines.drop_first()),
            Err(e) => Err(e),
        }
    }
}

/// Where the input ends without a fatal error, the parsed records are
/// exactly the runs that rule lines completed, plus the in-progress record
/// exactly when the input ends inside the footer section: a trailing run
/// that never reaches its footer contributes no record, while every
/// earlier, completed run still stands.
pub proof fn lemma_trailing_run(p: ParserV, lines: Seq<Seq<char>>)
    requires
        state_after(p, lines) is Ok,
    ensures
        ({
            let q = state_after(p, lines)->Ok_0;
            run_model(p, lines) == (
                emitted_during(p, lines) + (if q.status is Footer {
                    seq![RecordV { header: q.header, footer: q.footer }]
                } else {
                    Seq::<RecordV>::empty()
                }),
                None::<ParseError>,
            )
        }),
    decreases lines.len(),
{
    let q = state_after(p, lines)->Ok_0;
    let eof = if q.status is Footer {
        seq![RecordV { header: q.header, footer: q.footer }]
    } else {
        Seq::<RecordV>::empty()
    };
    if lines.len() == 0 {
        assert(Seq::<RecordV>::empty() + eof =~= eof);
    } else {
        match step_spec(p, lines[0]) {
            Ok((q1, emitted)) => {
                lemma_trailing_run(q1, lines.drop_first());
                let head = match emitted {
                    Some(rec) => seq![rec],
                    None => Seq::<RecordV>::empty(),
                };
                assert(head + (emitted_during(q1, lines.drop_first()) + eof) =~= (head
                    + emitted_during(q1, lines.drop_first())) + eof);
                match emitted {
                    Some(rec) => {
                        assert(seq![rec] + emitted_during(q1, lines.drop_first()) =~= head
                            + emitted_during(q1, lines.drop_first()));
                    },
                    None => {
                        assert(Seq::<RecordV>::empty() + emitted_during(q1, lines.drop_first())
                            =~= emitted_during(q1, lines.drop_first()));
                    },
                }
            },
            Err(e) => {},
        }
    }
}

} // verus!
