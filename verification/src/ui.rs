//! State and analysis driver behind the interactive front end. The front
//! end itself (widgets, file dialogs) lives outside the library; this holds
//! the verified part: building filters from the typed-in strings and
//! running one analysis over the lines of the chosen file.

use vstd::prelude::*;

use crate::analyze::{
    dt_ok, init_state, spec_fold, Analyzer, Filters, Granularity,
};
use crate::parse::{spec_parse_line, DefaultLogParser, LineSpec, LogParser};
use crate::report::{build_summary, spec_summary_of, JsonSummary};

verus! {

/// The parse outcome of every line at a given substituted year.
pub open spec fn line_outs(lines: Seq<String>, year: u32) -> Seq<LineSpec> {
    Seq::new(lines.len(), |i: int| spec_parse_line(lines[i]@, year))
}

/// An empty typed-in criterion stands for no criterion.
pub open spec fn opt_nonempty(s: Seq<char>) -> Option<Seq<char>> {
    if s.len() == 0 {
        None
    } else {
        Some(s)
    }
}

/// The interactive session's state: the chosen file, the typed-in filter
/// strings, the chosen granularity, and the last outcome.
pub struct GuiApp {
    pub file: Option<String>,
    pub keyword: String,
    pub from: String,
    pub to: String,
    pub gran: Granularity,
    pub summary: Option<JsonSummary>,
    pub info_text: String,
}

impl GuiApp {
    /// A fresh session at the default granularity.
    pub fn new() -> (r: Self)
        ensures
            r.file is None,
            r.summary is None,
            r.gran == Granularity::Hour,
            r.keyword@.len() == 0,
            r.from@.len() == 0,
            r.to@.len() == 0,
            r.info_text@.len() == 0,
    {
        GuiApp {
            file: None,
            keyword: String::new(),
            from: String::new(),
            to: String::new(),
            gran: Granularity::Hour,
            summary: None,
            info_text: String::new(),
        }
    }

    /// Run one analysis over the lines of the chosen file, with the current
    /// calendar year injected for the syslog-style shape. Without a chosen
    /// file, or with an unparseable filter bound, the summary is left alone
    /// and the message text says why; otherwise the summary of the whole
    /// input is stored.
    pub fn run_analysis(&mut self, lines: &Vec<String>, current_year: u32)
        requires
            current_year <= 9999,
        ensures
            final(self).file == old(self).file,
            final(self).keyword == old(self).keyword,
            final(self).from == old(self).from,
            final(self).to == old(self).to,
            final(self).gran == old(self).gran,
            old(self).file is None ==> final(self).summary == old(self).summary
                && final(self).info_text@ == "Select a .log file first"@,
            old(self).file is Some && !(dt_ok(opt_nonempty(old(self).from@)) && dt_ok(
                opt_nonempty(old(self).to@),
            )) ==> final(self).summary == old(self).summary && final(self).info_text@
                == "Filter error: Could not parse datetime: "@ + (if !dt_ok(
                opt_nonempty(old(self).from@),
            ) {
                old(self).from@
            } else {
                old(self).to@
            }),
            old(self).file is Some && dt_ok(opt_nonempty(old(self).from@)) && dt_ok(
                opt_nonempty(old(self).to@),
            ) ==> {
                &&& final(self).info_text == old(self).info_text
                &&& final(self).summary matches Some(s) && spec_summary_of(
                    s@,
                    spec_fold(
                        init_state(old(self).gran),
                        line_outs(lines@, current_year),
                    ),
                )
            },
    {
        if self.file.is_none() {
            self.info_text = "Select a .log file first".to_owned();
            return;
        }
        let kw: Option<&str> = if self.keyword.as_str().is_empty() {
            None
        } else {
            Some(self.keyword.as_str())
        };
        let fr: Option<&str> = if self.from.as_str().is_empty() {
            None
        } else {
            Some(self.from.as_str())
        };
        let to: Option<&str> = if self.to.as_str().is_empty() {
            None
        } else {
            Some(self.to.as_str())
        };
        let filters = match Filters::from_cli(kw, fr, to, None) {
            Ok(f) => f,
            Err(e) => {
                let mut t = "Filter error: ".to_owned();
                t.append(e.as_str());
                proof {
                    reveal_strlit("Filter error: ");
                    reveal_strlit("Could not parse datetime: ");
                    reveal_strlit("Filter error: Could not parse datetime: ");
                    assert(t@ =~= "Filter error: Could not parse datetime: "@ + (if !dt_ok(
                        opt_nonempty(old(self).from@),
                    ) {
                        old(self).from@
                    } else {
                        old(self).to@
                    }));
                }
                self.info_text = t;
                return;
            },
        };
        let mut parser = DefaultLogParser::with_year(current_year);
        let mut analyzer = Analyzer::new(self.gran);
        let n = lines.len();
        proof {
            assert(lines@.len() == n as int);
            assert(usize::MAX <= u64::MAX);
        }
        let ghost p0 = parser;
        analyzer.consume_lines(&mut parser, lines);
        proof {
            assert(Seq::new(lines@.len(), |i: int| p0.line_spec(lines@[i]@)) =~= line_outs(
                lines@,
                current_year,
            ));
        }
        let s = build_summary(&analyzer, &filters);
        self.summary = Some(s);
    }
}

} // verus!
