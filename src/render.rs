//! The canonical text of a stage, and what parsing guarantees about it.
use vstd::prelude::*;
use vstd::string::*;
use crate::directive::{Directive, strings_view, FileOutputType, Mode, ParseError, Scan, Stage, commit, finish, is_blank, parse_segment, scan, scan_from, scan_init, step};

verus! {

/// A token that reads back as itself: not empty, with no blank and no
/// redirection character.
pub open spec fn is_word(w: Seq<char>) -> bool {
    &&& w.len() > 0
    &&& forall|i: int| 0 <= i < w.len() ==> !is_blank(#[trigger] w[i]) && w[i] != '<' && w[i] != '>'
}

/// No blank and no operator: what every token that the scanner builds
/// satisfies.
pub open spec fn is_clean(w: Seq<char>) -> bool {
    forall|i: int| 0 <= i < w.len() ==> !is_blank(#[trigger] w[i]) && w[i] != '<' && w[i] != '>'
}

pub open spec fn joined_args(args: Seq<Seq<char>>) -> Seq<char>
    decreases args.len(),
{
    if args.len() == 0 {
        Seq::empty()
    } else {
        joined_args(args.drop_last()) + seq![' '] + args.last()
    }
}

pub open spec fn input_part(d: Stage) -> Seq<char> {
    match d.input {
        Some(x) => seq![' ', '<', ' '] + x,
        None => Seq::empty(),
    }
}

pub open spec fn output_op(m: Option<FileOutputType>) -> Seq<char> {
    if m == Some(FileOutputType::Append) {
        seq![' ', '>', '>', ' ']
    } else {
        seq![' ', '>', ' ']
    }
}

pub open spec fn output_part(d: Stage) -> Seq<char> {
    match d.output {
        Some(y) => output_op(d.output_mode) + y,
        None => Seq::empty(),
    }
}

/// The canonical text of a stage: the command, its arguments, then the
/// redirections in either order.
pub open spec fn render(d: Stage, outputs_first: bool) -> Seq<char> {
    d.cmd + joined_args(d.args) + if outputs_first {
        output_part(d) + input_part(d)
    } else {
        input_part(d) + output_part(d)
    }
}

/// A stage made of words, with an output mode exactly beside an output file.
pub open spec fn is_plain_stage(d: Stage) -> bool {
    &&& is_word(d.cmd)
    &&& forall|i: int| 0 <= i < d.args.len() ==> is_word(#[trigger] d.args[i])
    &&& (d.input is Some ==> is_word(d.input->0))
    &&& (d.output is Some ==> is_word(d.output->0))
    &&& (d.output is Some <==> d.output_mode is Some)
}

proof fn lemma_scan_concat(st: Scan, a: Seq<char>, b: Seq<char>)
    ensures
        scan_from(st, a + b) == scan_from(scan_from(st, a), b),
    decreases b.len(),
{
    if b.len() == 0 {
        assert(a + b =~= a);
    } else {
        assert((a + b).drop_last() =~= a + b.drop_last());
        lemma_scan_concat(st, a, b.drop_last());
    }
}

proof fn lemma_scan1(st: Scan, a: char)
    ensures
        scan_from(st, seq![a]) == step(st, a),
{
    let s = seq![a];
    assert(s.drop_last() =~= Seq::<char>::empty());
    assert(s.last() == a);
    assert(scan_from(st, Seq::<char>::empty()) == st);
}

proof fn lemma_scan2(st: Scan, a: char, b: char)
    ensures
        scan_from(st, seq![a, b]) == step(step(st, a), b),
{
    let s = seq![a, b];
    assert(s.drop_last() =~= seq![a]);
    assert(s.last() == b);
    lemma_scan1(st, a);
}

proof fn lemma_scan3(st: Scan, a: char, b: char, c: char)
    ensures
        scan_from(st, seq![a, b, c]) == step(step(step(st, a), b), c),
{
    let s = seq![a, b, c];
    assert(s.drop_last() =~= seq![a, b]);
    assert(s.last() == c);
    lemma_scan2(st, a, b);
}

proof fn lemma_scan4(st: Scan, a: char, b: char, c: char, e: char)
    ensures
        scan_from(st, seq![a, b, c, e]) == step(step(step(step(st, a), b), c), e),
{
    let s = seq![a, b, c, e];
    assert(s.drop_last() =~= seq![a, b, c]);
    assert(s.last() == e);
    lemma_scan3(st, a, b, c);
}

/// Reading characters that are neither blank nor operators extends the token.
proof fn lemma_word(st: Scan, w: Seq<char>)
    requires
        st.error is None,
        !st.pending_gt,
        forall|i: int| 0 <= i < w.len() ==> !is_blank(#[trigger] w[i]) && w[i] != '<' && w[i] != '>',
    ensures
        scan_from(st, w) == (Scan { token: st.token + w, ..st }),
    decreases w.len(),
{
    if w.len() == 0 {
        assert(st.token + w =~= st.token);
    } else {
        lemma_word(st, w.drop_last());
        assert((st.token + w.drop_last()).push(w.last()) =~= st.token + w);
    }
}

proof fn lemma_sep_word(st: Scan, w: Seq<char>)
    requires
        st.error is None,
        !st.pending_gt,
        st.token.len() > 0,
        is_word(w),
        commit(st, Mode::Args).error is None,
    ensures
        scan_from(st, seq![' '] + w) == (Scan { token: w, ..commit(st, Mode::Args) }),
{
    lemma_scan_concat(st, seq![' '], w);
    lemma_scan1(st, ' ');
    let c = commit(st, Mode::Args);
    lemma_word(c, w);
    assert(c.token + w =~= w);
}

proof fn lemma_in_piece(st: Scan, x: Seq<char>)
    requires
        st.error is None,
        !st.pending_gt,
        st.token.len() > 0,
        is_word(x),
        commit(st, Mode::Args).error is None,
    ensures
        scan_from(st, seq![' ', '<', ' '] + x) == (Scan {
            mode: Mode::In,
            token: x,
            ..commit(st, Mode::Args)
        }),
{
    lemma_scan_concat(st, seq![' ', '<', ' '], x);
    lemma_scan3(st, ' ', '<', ' ');
    let c = Scan { mode: Mode::In, ..commit(st, Mode::Args) };
    lemma_word(c, x);
    assert(c.token + x =~= x);
}

proof fn lemma_out_piece(st: Scan, y: Seq<char>, m: Option<FileOutputType>)
    requires
        st.error is None,
        !st.pending_gt,
        st.token.len() > 0,
        is_word(y),
        commit(st, Mode::Args).error is None,
    ensures
        scan_from(st, output_op(m) + y) == (Scan {
            mode: Mode::Out,
            token: y,
            output_mode: Some(
                if m == Some(FileOutputType::Append) {
                    FileOutputType::Append
                } else {
                    FileOutputType::Truncate
                },
            ),
            ..commit(st, Mode::Args)
        }),
{
    lemma_scan_concat(st, output_op(m), y);
    let k = if m == Some(FileOutputType::Append) {
        FileOutputType::Append
    } else {
        FileOutputType::Truncate
    };
    if m == Some(FileOutputType::Append) {
        lemma_scan4(st, ' ', '>', '>', ' ');
    } else {
        lemma_scan3(st, ' ', '>', ' ');
    }
    let c = Scan { mode: Mode::Out, output_mode: Some(k), ..commit(st, Mode::Args) };
    lemma_word(c, y);
    assert(c.token + y =~= y);
}

pub open spec fn args_state(cmd: Seq<char>, args: Seq<Seq<char>>) -> Scan {
    if args.len() == 0 {
        Scan { token: cmd, ..scan_init() }
    } else {
        Scan {
            mode: Mode::Args,
            token: args.last(),
            have_cmd: true,
            cmd: cmd,
            args: args.drop_last(),
            ..scan_init()
        }
    }
}

proof fn lemma_args(cmd: Seq<char>, args: Seq<Seq<char>>)
    requires
        is_word(cmd),
        forall|i: int| 0 <= i < args.len() ==> is_word(#[trigger] args[i]),
    ensures
        scan(cmd + joined_args(args)) == args_state(cmd, args),
    decreases args.len(),
{
    if args.len() == 0 {
        assert(cmd + joined_args(args) =~= cmd);
        lemma_word(scan_init(), cmd);
        assert(Seq::<char>::empty() + cmd =~= cmd);
    } else {
        let p = args.drop_last();
        assert forall|i: int| 0 <= i < p.len() implies is_word(#[trigger] p[i]) by {
            assert(p[i] == args[i]);
        }
        lemma_args(cmd, p);
        assert(is_word(args[args.len() - 1]));
        assert(cmd + joined_args(args) =~= (cmd + joined_args(p)) + (seq![' '] + args.last()));
        lemma_scan_concat(scan_init(), cmd + joined_args(p), seq![' '] + args.last());
        if p.len() > 0 {
            assert(is_word(p[p.len() - 1]));
            assert(p.drop_last().push(p.last()) =~= p);
        }
        lemma_sep_word(args_state(cmd, p), args.last());
        assert(scan(cmd + joined_args(args)) == scan_from(args_state(cmd, p), seq![' '] + args.last()));
        assert(commit(args_state(cmd, p), Mode::Args).args =~= args.drop_last());
    }
}

proof fn lemma_render(d: Stage, outputs_first: bool)
    requires
        is_plain_stage(d),
    ensures
        parse_segment(render(d, outputs_first)) == Ok::<Stage, ParseError>(d),
{
    let head = d.cmd + joined_args(d.args);
    lemma_args(d.cmd, d.args);
    let a = args_state(d.cmd, d.args);
    if d.args.len() > 0 {
        assert(d.args.drop_last().push(d.args.last()) =~= d.args);
        assert(is_word(d.args[d.args.len() - 1]));
    }
    let ip = input_part(d);
    let op = output_part(d);
    let tail = if outputs_first {
        op + ip
    } else {
        ip + op
    };
    lemma_scan_concat(scan_init(), head, tail);
    assert(render(d, outputs_first) == head + tail);
    assert(scan(render(d, outputs_first)) == scan_from(a, tail));
    assert(d.args.len() > 0 ==> is_word(d.args.last()));
    let ca = commit(a, Mode::Args);
    assert(ca.cmd == d.cmd && ca.args == d.args && ca.error is None && ca.have_cmd);
    match (d.input, d.output) {
        (None, None) => {
            assert(tail =~= Seq::<char>::empty());
            assert(scan_from(a, tail) == a);
            assert(finish(a) == Ok::<Stage, ParseError>(d));
        },
        (Some(x), None) => {
            assert(tail =~= ip);
            lemma_in_piece(a, x);
            assert(finish(scan_from(a, tail)) == Ok::<Stage, ParseError>(d));
        },
        (None, Some(y)) => {
            assert(tail =~= op);
            assert(op == output_op(d.output_mode) + y);
            lemma_out_piece(a, y, d.output_mode);
            let f = scan_from(a, tail);
            assert(f.mode == Mode::Out && f.token == y && f.output is None && f.have_cmd);
            assert(f.output_mode == d.output_mode);
            assert(commit(f, Mode::Args).output == Some(y));
            assert(finish(scan_from(a, tail)) == Ok::<Stage, ParseError>(d));
        },
        (Some(x), Some(y)) => {
            if outputs_first {
                lemma_scan_concat(a, op, ip);
                lemma_out_piece(a, y, d.output_mode);
                let o = scan_from(a, op);
                lemma_in_piece(o, x);
                assert(finish(scan_from(a, tail)) == Ok::<Stage, ParseError>(d));
            } else {
                lemma_scan_concat(a, ip, op);
                lemma_in_piece(a, x);
                assert(ip == seq![' ', '<', ' '] + x);
                assert(op == output_op(d.output_mode) + y);
                let i = scan_from(a, ip);
                assert(i.token == x && i.mode == Mode::In && i.input is None);
                assert(commit(i, Mode::Args).error is None);
                lemma_out_piece(i, y, d.output_mode);
                let f = scan_from(a, tail);
                assert(f.mode == Mode::Out && f.token == y && f.output is None && f.have_cmd);
                assert(f.output_mode == d.output_mode);
                assert(finish(scan_from(a, tail)) == Ok::<Stage, ParseError>(d));
            }
        },
    }
}

pub open spec fn is_token(w: Seq<char>) -> bool {
    w.len() > 0 && is_clean(w)
}

/// What holds of the scanner's state after any input, apart from the
/// moment between a `>` and the character after it.
pub open spec fn scan_core(st: Scan) -> bool {
    st.error is None ==> {
        &&& is_clean(st.token)
        &&& (st.have_cmd ==> is_token(st.cmd))
        &&& forall|i: int| 0 <= i < st.args.len() ==> is_token(#[trigger] st.args[i])
        &&& (st.input is Some ==> is_token(st.input->0))
        &&& (st.output is Some ==> is_token(st.output->0) && st.output_mode is Some)
        &&& (st.pending_gt ==> st.token.len() == 0)
    }
}

pub open spec fn scan_ok(st: Scan) -> bool {
    &&& scan_core(st)
    &&& (st.error is None && st.mode == Mode::Out && !st.pending_gt ==> st.output_mode is Some)
}

proof fn lemma_commit_ok(st: Scan, next: Mode)
    requires
        scan_ok(st),
    ensures
        scan_core(commit(st, next)),
        next != Mode::Out ==> scan_ok(commit(st, next)),
        commit(st, next).output_mode == st.output_mode,
{
    let c = commit(st, next);
    if st.error is None && st.token.len() > 0 && st.have_cmd && st.mode != Mode::In && st.mode
        != Mode::Out {
        assert forall|i: int| 0 <= i < c.args.len() implies is_token(#[trigger] c.args[i]) by {
            if i < st.args.len() {
                assert(c.args[i] == st.args[i]);
            }
        }
    }
}

proof fn lemma_step_ok(st: Scan, ch: char)
    requires
        scan_ok(st),
    ensures
        scan_ok(step(st, ch)),
{
    if st.error is None {
        if st.pending_gt && ch == '<' {
            let t = Scan { pending_gt: false, output_mode: Some(FileOutputType::Truncate), ..st };
            lemma_commit_ok(t, Mode::In);
        } else if st.pending_gt {
            let n = step(st, ch);
            assert forall|i: int| 0 <= i < n.token.len() implies !is_blank(#[trigger] n.token[i])
                && n.token[i] != '<' && n.token[i] != '>' by {
                if i < st.token.len() {
                    assert(n.token[i] == st.token[i]);
                }
            }
        } else if is_blank(ch) {
            if st.token.len() > 0 {
                lemma_commit_ok(st, Mode::Args);
            }
        } else if ch == '<' {
            lemma_commit_ok(st, Mode::In);
        } else if ch == '>' {
            lemma_commit_ok(st, Mode::Out);
        } else {
            let n = step(st, ch);
            assert forall|i: int| 0 <= i < n.token.len() implies !is_blank(#[trigger] n.token[i])
                && n.token[i] != '<' && n.token[i] != '>' by {
                if i < st.token.len() {
                    assert(n.token[i] == st.token[i]);
                }
            }
        }
    }
}

proof fn lemma_scan_ok(s: Seq<char>)
    ensures
        scan_ok(scan(s)),
    decreases s.len(),
{
    if s.len() > 0 {
        lemma_scan_ok(s.drop_last());
        lemma_step_ok(scan(s.drop_last()), s.last());
    }
}

/// A stage that parsing produced is made of words, with an output mode
/// exactly beside an output file.
pub proof fn law_parsed_stage_is_plain(s: Seq<char>)
    requires
        parse_segment(s) is Ok,
    ensures
        is_plain_stage(parse_segment(s)->Ok_0),
{
    lemma_scan_ok(s);
    lemma_commit_ok(scan(s), Mode::Args);
    let d = parse_segment(s)->Ok_0;
    assert forall|i: int| 0 <= i < d.args.len() implies is_word(#[trigger] d.args[i]) by {
        assert(is_token(d.args[i]));
    }
}

/// A command followed by blank-separated words parses to that command and
/// those arguments, with no redirection.
pub proof fn law_plain_command(cmd: Seq<char>, args: Seq<Seq<char>>)
    requires
        is_word(cmd),
        forall|i: int| 0 <= i < args.len() ==> is_word(#[trigger] args[i]),
    ensures
        parse_segment(cmd + joined_args(args)) == Ok::<Stage, ParseError>(
            Stage { cmd, args, input: None, output: None, output_mode: None },
        ),
{
    let d = Stage { cmd, args, input: None, output: None, output_mode: None };
    lemma_render(d, false);
    assert(render(d, false) =~= cmd + joined_args(args));
}

/// The order of the two redirections does not matter: both orders parse to
/// the same stage.
pub proof fn law_redirection_order(d: Stage)
    requires
        is_plain_stage(d),
    ensures
        parse_segment(render(d, false)) == parse_segment(render(d, true)),
        parse_segment(render(d, false)) == Ok::<Stage, ParseError>(d),
{
    lemma_render(d, false);
    lemma_render(d, true);
}

/// `>>` redirects output for appending, a single `>` for truncation.
pub proof fn law_output_modes(cmd: Seq<char>, f: Seq<char>)
    requires
        is_word(cmd),
        is_word(f),
    ensures
        parse_segment(cmd + seq![' ', '>', '>', ' '] + f) == Ok::<Stage, ParseError>(
            Stage {
                cmd,
                args: Seq::empty(),
                input: None,
                output: Some(f),
                output_mode: Some(FileOutputType::Append),
            },
        ),
        parse_segment(cmd + seq![' ', '>', ' '] + f) == Ok::<Stage, ParseError>(
            Stage {
                cmd,
                args: Seq::empty(),
                input: None,
                output: Some(f),
                output_mode: Some(FileOutputType::Truncate),
            },
        ),
{
    let a = Stage {
        cmd,
        args: Seq::empty(),
        input: None,
        output: Some(f),
        output_mode: Some(FileOutputType::Append),
    };
    let t = Stage { output_mode: Some(FileOutputType::Truncate), ..a };
    lemma_render(a, false);
    lemma_render(t, false);
    assert(render(a, false) =~= cmd + seq![' ', '>', '>', ' '] + f);
    assert(render(t, false) =~= cmd + seq![' ', '>', ' '] + f);
}

/// Two input redirections in one segment are refused.
pub proof fn law_duplicate_input(cmd: Seq<char>, a: Seq<char>, b: Seq<char>)
    requires
        is_word(cmd),
        is_word(a),
        is_word(b),
    ensures
        parse_segment(cmd + seq![' ', '<', ' '] + a + seq![' ', '<', ' '] + b) == Err::<
            Stage,
            ParseError,
        >(ParseError::TooManyInputs),
{
    let s0 = scan_init();
    lemma_word(s0, cmd);
    assert(s0.token + cmd =~= cmd);
    let c = scan_from(s0, cmd);
    lemma_in_piece(c, a);
    let i1 = scan_from(c, seq![' ', '<', ' '] + a);
    lemma_in_piece(i1, b);
    lemma_scan_concat(s0, cmd, seq![' ', '<', ' '] + a);
    assert(cmd + seq![' ', '<', ' '] + a =~= cmd + (seq![' ', '<', ' '] + a));
    lemma_scan_concat(s0, cmd + seq![' ', '<', ' '] + a, seq![' ', '<', ' '] + b);
    assert(cmd + seq![' ', '<', ' '] + a + seq![' ', '<', ' '] + b =~= (cmd + seq![' ', '<', ' ']
        + a) + (seq![' ', '<', ' '] + b));
}

/// Parsing the canonical text of a parsed stage gives the stage back.
pub proof fn law_reparse(s: Seq<char>, d: Stage)
    requires
        parse_segment(s) == Ok::<Stage, ParseError>(d),
    ensures
        parse_segment(render(d, false)) == Ok::<Stage, ParseError>(d),
{
    law_parsed_stage_is_plain(s);
    lemma_render(d, false);
}

impl Directive {
    /// The canonical text of this stage: the command, the arguments, then
    /// `< input` and `> output` (or `>> output`), separated by spaces.
    pub fn to_line(&self) -> (r: String)
        ensures
            r@ == render(self@, false),
    {
        proof {
            reveal_strlit(" < ");
            reveal_strlit(" > ");
            reveal_strlit(" >> ");
        }
        let ghost args = strings_view(self.args@);
        let mut line = self.cmd.clone();
        let mut i: usize = 0;
        proof {
            assert(args.take(0) =~= Seq::<Seq<char>>::empty());
            assert(line@ =~= self.cmd@ + joined_args(args.take(0)));
        }
        while i < self.args.len()
            invariant
                args == strings_view(self.args@),
                i <= self.args.len(),
                line@ == self.cmd@ + joined_args(args.take(i as int)),
            decreases self.args.len() - i,
        {
            proof {
                assert(args.take(i + 1).drop_last() =~= args.take(i as int));
                assert(args.take(i + 1).last() == self.args@[i as int]@);
            }
            line = line.concat(" ").concat(self.args[i].as_str());
            proof {
                reveal_strlit(" ");
                assert(" "@ =~= seq![' ']);
                assert(line@ =~= self.cmd@ + joined_args(args.take(i + 1)));
            }
            i = i + 1;
        }
        proof {
            assert(args.take(self.args.len() as int) =~= args);
        }
        let ghost head = line@;
        match &self.input_filename {
            Some(x) => {
                line = line.concat(" < ").concat(x.as_str());
                assert(" < "@ =~= seq![' ', '<', ' ']);
            },
            None => {},
        }
        let ghost mid = line@;
        match &self.output_filename {
            Some(y) => {
                match self.file_output_type {
                    Some(FileOutputType::Append) => {
                        line = line.concat(" >> ").concat(y.as_str());
                        assert(" >> "@ =~= seq![' ', '>', '>', ' ']);
                    },
                    _ => {
                        line = line.concat(" > ").concat(y.as_str());
                        assert(" > "@ =~= seq![' ', '>', ' ']);
                    },
                }
            },
            None => {},
        }
        proof {
            assert(mid =~= head + input_part(self@));
            assert(line@ =~= mid + output_part(self@));
            assert(line@ =~= render(self@, false));
        }
        line
    }
}

} // verus!
