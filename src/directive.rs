//! Parsing of one pipeline stage: a command, its arguments, and optional
//! input and output redirections.
use vstd::prelude::*;
use vstd::string::*;

verus! {

/// How an output redirection treats an existing file.
#[derive(Debug, Clone, Copy, PartialEq, Eq, Structural)]
pub enum FileOutputType {
    Append,
    Truncate,
}

/// Why a segment could not be parsed.
#[derive(Debug, Clone, Copy, PartialEq, Eq, Structural)]
pub enum ParseError {
    MissingCommand,
    TooManyInputs,
    TooManyOutputs,
}

pub open spec fn error_text(e: ParseError) -> Seq<char> {
    match e {
        ParseError::MissingCommand => "No command given"@,
        ParseError::TooManyInputs => "Too many input files defined"@,
        ParseError::TooManyOutputs => "Too many output files defined"@,
    }
}

impl ParseError {
    /// The text shown to the user for this error.
    pub fn message(&self) -> (r: &'static str)
        ensures
            r@ == error_text(*self),
    {
        match self {
            ParseError::MissingCommand => "No command given",
            ParseError::TooManyInputs => "Too many input files defined",
            ParseError::TooManyOutputs => "Too many output files defined",
        }
    }
}

/// Which slot the scanner hands its next finished token to.
#[derive(Debug, Clone, Copy, PartialEq, Eq, Structural)]
pub enum Mode {
    Cmd,
    Args,
    In,
    Out,
}

/// The mathematical value of a parsed stage.
pub struct Stage {
    pub cmd: Seq<char>,
    pub args: Seq<Seq<char>>,
    pub input: Option<Seq<char>>,
    pub output: Option<Seq<char>>,
    pub output_mode: Option<FileOutputType>,
}

/// The scanner's state after some prefix of a segment.
pub struct Scan {
    pub mode: Mode,
    pub token: Seq<char>,
    pub pending_gt: bool,
    pub have_cmd: bool,
    pub cmd: Seq<char>,
    pub args: Seq<Seq<char>>,
    pub input: Option<Seq<char>>,
    pub output: Option<Seq<char>>,
    pub output_mode: Option<FileOutputType>,
    pub error: Option<ParseError>,
}

/// Characters that separate tokens: Unicode's White_Space property.
pub open spec fn is_blank(c: char) -> bool {
    let u = c as u32;
    ||| 0x9 <= u <= 0xD
    ||| u == 0x20
    ||| u == 0x85
    ||| u == 0xA0
    ||| u == 0x1680
    ||| 0x2000 <= u <= 0x200A
    ||| u == 0x2028
    ||| u == 0x2029
    ||| u == 0x202F
    ||| u == 0x205F
    ||| u == 0x3000
}

pub open spec fn scan_init() -> Scan {
    Scan {
        mode: Mode::Cmd,
        token: Seq::empty(),
        pending_gt: false,
        have_cmd: false,
        cmd: Seq::empty(),
        args: Seq::empty(),
        input: None,
        output: None,
        output_mode: None,
        error: None,
    }
}

/// Hands the pending token (if any) to its slot and switches to `next`.
/// Until a command is known, a finished token always becomes the command.
pub open spec fn commit(st: Scan, next: Mode) -> Scan {
    if st.token.len() == 0 {
        Scan { mode: next, ..st }
    } else if !st.have_cmd {
        Scan { mode: next, token: Seq::empty(), have_cmd: true, cmd: st.token, ..st }
    } else {
        match st.mode {
            Mode::In => if st.input is Some {
                Scan { error: Some(ParseError::TooManyInputs), ..st }
            } else {
                Scan { mode: next, token: Seq::empty(), input: Some(st.token), ..st }
            },
            Mode::Out => if st.output is Some {
                Scan { error: Some(ParseError::TooManyOutputs), ..st }
            } else {
                Scan { mode: next, token: Seq::empty(), output: Some(st.token), ..st }
            },
            _ => Scan { mode: next, token: Seq::empty(), args: st.args.push(st.token), ..st },
        }
    }
}

/// One character of input. After a `>` the next character is looked at
/// once: a second `>` selects appending, anything else truncation; a `<`
/// there is still an operator, and any other character that is not blank
/// starts the next token.
pub open spec fn step(st: Scan, c: char) -> Scan {
    if st.error is Some {
        st
    } else if st.pending_gt {
        if c == '>' {
            Scan { pending_gt: false, output_mode: Some(FileOutputType::Append), ..st }
        } else if is_blank(c) {
            Scan { pending_gt: false, output_mode: Some(FileOutputType::Truncate), ..st }
        } else if c == '<' {
            commit(
                Scan { pending_gt: false, output_mode: Some(FileOutputType::Truncate), ..st },
                Mode::In,
            )
        } else {
            Scan {
                pending_gt: false,
                output_mode: Some(FileOutputType::Truncate),
                token: st.token.push(c),
                ..st
            }
        }
    } else if is_blank(c) {
        if st.token.len() > 0 {
            commit(st, Mode::Args)
        } else {
            st
        }
    } else if c == '<' {
        commit(st, Mode::In)
    } else if c == '>' {
        let n = commit(st, Mode::Out);
        if n.error is Some {
            n
        } else {
            Scan { pending_gt: true, ..n }
        }
    } else {
        Scan { token: st.token.push(c), ..st }
    }
}

/// The scanner's state after reading `s` from `st`.
pub open spec fn scan_from(st: Scan, s: Seq<char>) -> Scan
    decreases s.len(),
{
    if s.len() == 0 {
        st
    } else {
        step(scan_from(st, s.drop_last()), s.last())
    }
}

pub open spec fn scan(s: Seq<char>) -> Scan {
    scan_from(scan_init(), s)
}

/// The end of input flushes the pending token; a segment without a command
/// fails, and an output mode is kept only beside an output file.
pub open spec fn finish(st: Scan) -> Result<Stage, ParseError> {
    let f = commit(st, Mode::Args);
    if st.error is Some {
        Err(st.error->0)
    } else if f.error is Some {
        Err(f.error->0)
    } else if !f.have_cmd {
        Err(ParseError::MissingCommand)
    } else {
        Ok(
            Stage {
                cmd: f.cmd,
                args: f.args,
                input: f.input,
                output: f.output,
                output_mode: if f.output is Some {
                    f.output_mode
                } else {
                    None
                },
            },
        )
    }
}

/// What parsing the text `s` of one segment gives.
pub open spec fn parse_segment(s: Seq<char>) -> Result<Stage, ParseError> {
    finish(scan(s))
}


pub open spec fn opt_view(o: Option<String>) -> Option<Seq<char>> {
    match o {
        Some(x) => Some(x@),
        None => None,
    }
}

pub open spec fn strings_view(v: Seq<String>) -> Seq<Seq<char>> {
    v.map_values(|a: String| a@)
}

/// One stage of a pipeline.
#[derive(Debug)]
pub struct Directive {
    pub cmd: String,
    pub args: Vec<String>,
    pub output_filename: Option<String>,
    pub input_filename: Option<String>,
    pub file_output_type: Option<FileOutputType>,
}

impl View for Directive {
    type V = Stage;

    open spec fn view(&self) -> Stage {
        Stage {
            cmd: self.cmd@,
            args: strings_view(self.args@),
            input: opt_view(self.input_filename),
            output: opt_view(self.output_filename),
            output_mode: self.file_output_type,
        }
    }
}

fn same_text(a: &Option<String>, b: &Option<String>) -> (r: bool)
    ensures
        r == (opt_view(*a) == opt_view(*b)),
{
    match (a, b) {
        (Some(x), Some(y)) => *x == *y,
        (None, None) => true,
        _ => false,
    }
}

fn same_mode(a: Option<FileOutputType>, b: Option<FileOutputType>) -> (r: bool)
    ensures
        r == (a == b),
{
    match (a, b) {
        (Some(FileOutputType::Append), Some(FileOutputType::Append)) => true,
        (Some(FileOutputType::Truncate), Some(FileOutputType::Truncate)) => true,
        (None, None) => true,
        _ => false,
    }
}

fn same_args(a: &Vec<String>, b: &Vec<String>) -> (r: bool)
    ensures
        r == (strings_view(a@) == strings_view(b@)),
{
    if a.len() != b.len() {
        assert(strings_view(a@).len() != strings_view(b@).len());
        return false;
    }
    let mut i: usize = 0;
    while i < a.len()
        invariant
            a.len() == b.len(),
            i <= a.len(),
            forall|j: int| 0 <= j < i ==> a@[j]@ == b@[j]@,
        decreases a.len() - i,
    {
        if a[i] != b[i] {
            assert(strings_view(a@)[i as int] != strings_view(b@)[i as int]);
            return false;
        }
        i = i + 1;
    }
    assert(strings_view(a@) =~= strings_view(b@));
    true
}

impl PartialEq for Directive {
    fn eq(&self, o: &Directive) -> (r: bool) {
        self.cmd == o.cmd && same_args(&self.args, &o.args) && same_text(
            &self.input_filename,
            &o.input_filename,
        ) && same_text(&self.output_filename, &o.output_filename) && same_mode(
            self.file_output_type,
            o.file_output_type,
        )
    }
}

impl vstd::std_specs::cmp::PartialEqSpecImpl for Directive {
    open spec fn obeys_eq_spec() -> bool {
        true
    }

    open spec fn eq_spec(&self, o: &Directive) -> bool {
        self@ == o@
    }
}

impl Eq for Directive {

}

/// The scanner's state while it reads a segment; the pending token is the
/// text between `start` and the current position.
struct Scanner {
    mode: Mode,
    start: usize,
    pending_gt: bool,
    have_cmd: bool,
    cmd: String,
    args: Vec<String>,
    input: Option<String>,
    output: Option<String>,
    output_mode: Option<FileOutputType>,
}

impl Scanner {
    spec fn at(&self, s: Seq<char>, i: int) -> Scan {
        Scan {
            mode: self.mode,
            token: s.subrange(self.start as int, i),
            pending_gt: self.pending_gt,
            have_cmd: self.have_cmd,
            cmd: self.cmd@,
            args: strings_view(self.args@),
            input: opt_view(self.input),
            output: opt_view(self.output),
            output_mode: self.output_mode,
            error: None,
        }
    }

    fn new() -> (r: Scanner)
        ensures
            r.start == 0,
            r.at(Seq::empty(), 0) == scan_init(),
    {
        let r = Scanner {
            mode: Mode::Cmd,
            start: 0,
            pending_gt: false,
            have_cmd: false,
            cmd: String::new(),
            args: Vec::new(),
            input: None,
            output: None,
            output_mode: None,
        };
        assert(r.at(Seq::empty(), 0).token =~= Seq::empty());
        assert(strings_view(r.args@) =~= Seq::empty());
        r
    }

    /// Hands the token that ends before `i` to its slot.
    fn commit(&mut self, s: &str, i: usize, next: Mode) -> (r: Result<(), ParseError>)
        requires
            old(self).start <= i <= s@.len(),
        ensures
            ({
                let sp = commit(old(self).at(s@, i as int), next);
                match r {
                    Ok(_) => sp.error is None && final(self).start == i && final(self).at(s@, i as int)
                        == sp,
                    Err(e) => sp.error == Some(e),
                }
            }),
    {
        let ghost before = self.at(s@, i as int);
        if self.start == i {
            self.mode = next;
            assert(self.at(s@, i as int).token =~= before.token);
            return Ok(());
        }
        let tok = String::from_str(s.substring_char(self.start, i));
        if !self.have_cmd {
            self.cmd = tok;
            self.have_cmd = true;
        } else {
            match self.mode {
                Mode::In => {
                    if self.input.is_some() {
                        return Err(ParseError::TooManyInputs);
                    }
                    self.input = Some(tok);
                },
                Mode::Out => {
                    if self.output.is_some() {
                        return Err(ParseError::TooManyOutputs);
                    }
                    self.output = Some(tok);
                },
                _ => {
                    self.args.push(tok);
                    assert(strings_view(self.args@) =~= before.args.push(before.token));
                },
            }
        }
        self.start = i;
        self.mode = next;
        assert(self.at(s@, i as int).token =~= Seq::<char>::empty());
        Ok(())
    }
}

fn is_blank_char(c: char) -> (r: bool)
    ensures
        r == is_blank(c),
{
    let u = c as u32;
    (0x9 <= u && u <= 0xD) || u == 0x20 || u == 0x85 || u == 0xA0 || u == 0x1680 || (0x2000 <= u
        && u <= 0x200A) || u == 0x2028 || u == 0x2029 || u == 0x202F || u == 0x205F || u == 0x3000
}

proof fn lemma_scan_prefix(s: Seq<char>, i: int)
    requires
        0 <= i < s.len(),
    ensures
        scan(s.take(i + 1)) == step(scan(s.take(i)), s[i]),
{
    assert(s.take(i + 1).drop_last() =~= s.take(i));
}

/// Once the scanner has failed, the rest of the input changes nothing.
proof fn lemma_error_sticks(s: Seq<char>, k: int)
    requires
        0 <= k <= s.len(),
        scan(s.take(k)).error is Some,
    ensures
        scan(s) == scan(s.take(k)),
    decreases s.len() - k,
{
    if k == s.len() {
        assert(s.take(k) =~= s);
    } else {
        lemma_scan_prefix(s, k);
        lemma_error_sticks(s, k + 1);
    }
}

impl Directive {
    /// Parses the text of one segment.
    pub fn parse(segment: &str) -> (r: Result<Directive, ParseError>)
        ensures
            match r {
                Ok(d) => parse_segment(segment@) == Ok::<Stage, ParseError>(d@),
                Err(e) => parse_segment(segment@) == Err::<Stage, ParseError>(e),
            },
    {
        let ghost s = segment@;
        let n = segment.unicode_len();
        let mut sc = Scanner::new();
        proof {
            assert(s.take(0) =~= Seq::<char>::empty());
        }
        let mut i: usize = 0;
        while i < n
            invariant
                n == s.len(),
                s == segment@,
                i <= n,
                sc.start <= i,
                sc.at(s, i as int) == scan(s.take(i as int)),
                sc.pending_gt ==> sc.start == i,
            decreases n - i,
        {
            let c = segment.get_char(i);
            proof {
                lemma_scan_prefix(s, i as int);
            }
            let ghost st = sc.at(s, i as int);
            if sc.pending_gt {
                sc.pending_gt = false;
                if c == '>' {
                    sc.output_mode = Some(FileOutputType::Append);
                    sc.start = i + 1;
                } else if is_blank_char(c) {
                    sc.output_mode = Some(FileOutputType::Truncate);
                    sc.start = i + 1;
                } else if c == '<' {
                    sc.output_mode = Some(FileOutputType::Truncate);
                    match sc.commit(segment, i, Mode::In) {
                        Ok(_) => {},
                        Err(e) => {
                            proof {
                                lemma_error_sticks(s, i + 1);
                            }
                            return Err(e);
                        },
                    }
                    sc.start = i + 1;
                } else {
                    sc.output_mode = Some(FileOutputType::Truncate);
                }
            } else if is_blank_char(c) {
                if sc.start < i {
                    match sc.commit(segment, i, Mode::Args) {
                        Ok(_) => {},
                        Err(e) => {
                            proof {
                                lemma_error_sticks(s, i + 1);
                            }
                            return Err(e);
                        },
                    }
                }
                sc.start = i + 1;
            } else if c == '<' {
                match sc.commit(segment, i, Mode::In) {
                    Ok(_) => {},
                    Err(e) => {
                        proof {
                            lemma_error_sticks(s, i + 1);
                        }
                        return Err(e);
                    },
                }
                sc.start = i + 1;
            } else if c == '>' {
                match sc.commit(segment, i, Mode::Out) {
                    Ok(_) => {},
                    Err(e) => {
                        proof {
                            lemma_error_sticks(s, i + 1);
                        }
                        return Err(e);
                    },
                }
                sc.pending_gt = true;
                sc.start = i + 1;
            }
            proof {
                assert(sc.at(s, i + 1).token =~= scan(s.take(i + 1)).token);
                assert(sc.at(s, i + 1) == scan(s.take(i + 1)));
            }
            i = i + 1;
        }
        proof {
            assert(s.take(n as int) =~= s);
        }
        let ghost last = sc.at(s, n as int);
        match sc.commit(segment, n, Mode::Args) {
            Ok(_) => {},
            Err(e) => {
                return Err(e);
            },
        }
        if !sc.have_cmd {
            return Err(ParseError::MissingCommand);
        }
        let file_output_type = if sc.output.is_some() {
            sc.output_mode
        } else {
            None
        };
        Ok(
            Directive {
                cmd: sc.cmd,
                args: sc.args,
                output_filename: sc.output,
                input_filename: sc.input,
                file_output_type,
            },
        )
    }

    /// Parses the text of one segment, giving nothing where it is malformed.
    pub fn from_str(value: &str) -> (r: Option<Directive>)
        ensures
            match r {
                Some(d) => parse_segment(value@) == Ok::<Stage, ParseError>(d@),
                None => parse_segment(value@) is Err,
            },
    {
        match Directive::parse(value) {
            Ok(d) => Some(d),
            Err(_) => None,
        }
    }
}

} // verus!
