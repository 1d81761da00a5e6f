//! Command-line arguments of a prompt rendering, the shell init snippet, and
//! the prompts shown on errors.
use vstd::prelude::*;

use crate::text::{
    parse_i32, parse_signed, parse_unsigned, parse_usize, push_str, starts_with, str_eq,
    string_push, strip_prefix,
};

verus! {

/// What the shell passes when it asks for a prompt.
pub struct RenderArgs {
    pub last_status: i32,
    pub bind_mode: String,
    pub is_transient: bool,
    pub columns: usize,
}

/// The arguments so far: (last status, bind mode, transient, columns).
pub type RenderArgsView = (i32, Seq<char>, bool, usize);

pub open spec fn i32_or_zero(s: Seq<char>) -> i32 {
    match parse_signed(s, i32::MIN as int, i32::MAX as int) {
        Some(v) => v as i32,
        None => 0,
    }
}

pub open spec fn usize_or_zero(s: Seq<char>) -> usize {
    match parse_unsigned(s, usize::MAX as nat) {
        Some(v) => v as usize,
        None => 0,
    }
}

/// One argument: `--last-status=N`, `--columns=N` (unparsable numbers give
/// 0), `--bind-mode=M` or `--transient`; anything else is ignored.
pub open spec fn args_step(st: RenderArgsView, arg: Seq<char>) -> RenderArgsView {
    if starts_with(arg, "--last-status="@) {
        (i32_or_zero(arg.skip("--last-status="@.len() as int)), st.1, st.2, st.3)
    } else if starts_with(arg, "--columns="@) {
        (st.0, st.1, st.2, usize_or_zero(arg.skip("--columns="@.len() as int)))
    } else if starts_with(arg, "--bind-mode="@) {
        (st.0, arg.skip("--bind-mode="@.len() as int), st.2, st.3)
    } else if arg == "--transient"@ {
        (st.0, st.1, true, st.3)
    } else {
        st
    }
}

pub open spec fn args_fold(args: Seq<String>) -> RenderArgsView
    decreases args.len(),
{
    if args.len() == 0 {
        (0, "insert"@, false, 0)
    } else {
        args_step(args_fold(args.drop_last()), args.last()@)
    }
}

/// Reads the render arguments; later arguments win, and the defaults are
/// status 0, bind mode `insert`, not transient, 0 columns.
pub fn parse_render_args(args: &[String]) -> (r: RenderArgs)
    ensures
        (r.last_status, r.bind_mode@, r.is_transient, r.columns) == args_fold(args@),
{
    let mut last_status: i32 = 0;
    let mut columns: usize = 0;
    let mut bind_mode = "insert".to_string();
    let mut is_transient = false;
    let mut i: usize = 0;
    assert(args@.subrange(0, 0) =~= Seq::<String>::empty());
    while i < args.len()
        invariant
            i <= args@.len(),
            (last_status, bind_mode@, is_transient, columns) == args_fold(args@.subrange(0, i as int)),
        decreases args@.len() - i,
    {
        let arg = args[i].as_str();
        assert(args@.subrange(0, i + 1).drop_last() =~= args@.subrange(0, i as int));
        if let Some(value) = strip_prefix(arg, "--last-status=") {
            last_status = match parse_i32(value.as_str()) {
                Some(v) => v,
                None => 0,
            };
        } else if let Some(value) = strip_prefix(arg, "--columns=") {
            columns = match parse_usize(value.as_str()) {
                Some(v) => v,
                None => 0,
            };
        } else if let Some(value) = strip_prefix(arg, "--bind-mode=") {
            bind_mode = value;
        } else if str_eq(arg, "--transient") {
            is_transient = true;
        }
        i = i + 1;
    }
    assert(args@.subrange(0, args@.len() as int) =~= args@);
    RenderArgs { last_status, bind_mode, is_transient, columns }
}

/// The fish configuration that hooks the prompt in.
pub const FISH_INIT_SNIPPET: &'static str = "set -g fish_transient_prompt 1\n \nfunction fish_mode_prompt\n    # hide vi mode indicator - peter_prompt draws its own\nend\n \nfunction fish_prompt\n    set -l last_status $status\n \n    if contains -- --final-rendering $argv\n        peter_prompt --last-status=$last_status --bind-mode=$fish_bind_mode --columns=$COLUMNS --transient\n    else\n        peter_prompt --last-status=$last_status --bind-mode=$fish_bind_mode --columns=$COLUMNS\n    end\nend\n";

/// The init snippet for a shell; only fish has one.
pub fn init_snippet(shell: &str) -> (r: Option<String>)
    ensures
        r matches Some(s) ==> shell@ == "fish"@ && s@ == FISH_INIT_SNIPPET@,
        r is None ==> shell@ != "fish"@,
{
    if str_eq(shell, "fish") {
        Some(FISH_INIT_SNIPPET.to_string())
    } else {
        None
    }
}

/// The prompt shown in place of the real one when something failed: the
/// label and message in bold red brackets, then the prompt arrow.
pub open spec fn error_prompt_text(label: Seq<char>, message: Seq<char>) -> Seq<char> {
    seq!['\x1b', '[', '3', '1', ';', '1', 'm', '[', 'p', 'e', 't', 'e', 'r', ' '] + label + seq![
        ':',
        ' ',
    ] + message + seq![']', '\x1b', '[', '0', 'm', ' ', '\u{276f}', ' ']
}

pub fn error_prompt(label: &str, message: &str) -> (s: String)
    ensures
        s@ == error_prompt_text(label@, message@),
{
    let mut s = String::new();
    string_push(&mut s, '\x1b');
    string_push(&mut s, '[');
    string_push(&mut s, '3');
    string_push(&mut s, '1');
    string_push(&mut s, ';');
    string_push(&mut s, '1');
    string_push(&mut s, 'm');
    string_push(&mut s, '[');
    string_push(&mut s, 'p');
    string_push(&mut s, 'e');
    string_push(&mut s, 't');
    string_push(&mut s, 'e');
    string_push(&mut s, 'r');
    string_push(&mut s, ' ');
    push_str(&mut s, label);
    string_push(&mut s, ':');
    string_push(&mut s, ' ');
    push_str(&mut s, message);
    string_push(&mut s, ']');
    string_push(&mut s, '\x1b');
    string_push(&mut s, '[');
    string_push(&mut s, '0');
    string_push(&mut s, 'm');
    string_push(&mut s, ' ');
    string_push(&mut s, '\u{276f}');
    string_push(&mut s, ' ');
    assert(s@ =~= error_prompt_text(label@, message@));
    s
}

} // verus!
