//! Running source text: what is handed to the compiler and the evaluator, and
//! what comes of it.

use vstd::prelude::*;
use crate::errors;
use crate::errors::{raise, raise_str, ExcKind, Failure};
use crate::text;
use crate::text::{copy_text, push_dec, push_str, slice_of};
use crate::value::Object;

verus! {

/// One interactive command.
pub const Py_single_input: i32 = 256;

/// A whole file.
pub const Py_file_input: i32 = 257;

/// One expression.
pub const Py_eval_input: i32 = 258;

/// A function type.
pub const Py_func_type_input: i32 = 345;

/// The result of an interactive step at the end of the input.
pub const E_EOF: i32 = 11;

/// Flags for the compiler.
#[derive(Clone, Copy, Debug, PartialEq, Eq, Structural)]
pub struct PyCompilerFlags {
    pub cf_flags: i32,
    pub cf_feature_version: i32,
}

/// The compiler's mode for a start token.
pub open spec fn mode_of(start: i32) -> Option<Seq<char>> {
    if start == Py_eval_input {
        Some("eval"@)
    } else if start == Py_file_input {
        Some("exec"@)
    } else if start == Py_single_input {
        Some("single"@)
    } else {
        None
    }
}

/// The compiler's mode for a start token.
pub fn mode_for_start(start: i32) -> (r: Option<&'static str>)
    ensures
        match r {
            Some(m) => mode_of(start) == Some(m@),
            None => mode_of(start) is None,
        },
{
    if start == Py_eval_input {
        Some("eval")
    } else if start == Py_file_input {
        Some("exec")
    } else if start == Py_single_input {
        Some("single")
    } else {
        None
    }
}

/// The flag word; zero where no flags are given.
pub open spec fn flag_word(flags: Option<PyCompilerFlags>) -> i32 {
    match flags {
        Some(f) => f.cf_flags,
        None => 0,
    }
}

fn flags_of(flags: Option<PyCompilerFlags>) -> (r: i32)
    ensures
        r == flag_word(flags),
{
    match flags {
        Some(f) => f.cf_flags,
        None => 0,
    }
}

/// The message for a NULL text.
pub open spec fn null_string(what: Seq<char>) -> Seq<char> {
    what + ": NULL string"@
}

/// A text argument; NULL raises.
pub fn cstr_arg(p: Option<&[char]>, what: &str) -> (r: Result<Vec<char>, Failure>)
    ensures
        match p {
            Some(s) => r is Ok && r->Ok_0@ == s@,
            None => errors::raises(r, ExcKind::RuntimeError, null_string(what@)),
        },
{
    match p {
        Some(s) => Ok(copy_text(s)),
        None => {
            let mut m: Vec<char> = text::text(what);
            push_str(&mut m, ": NULL string");
            Err(raise(ExcKind::RuntimeError, m))
        },
    }
}

/// What to compile and in which mode, and where the names come from.
#[derive(Debug)]
pub struct RunPlan {
    pub filename: Vec<char>,
    pub mode: &'static str,
    pub flags: i32,
    /// The globals serve as locals too.
    pub globals_as_locals: bool,
}

/// The plan says exactly this.
pub open spec fn planned(
    p: RunPlan,
    filename: Seq<char>,
    start: i32,
    flags: i32,
    globals_as_locals: bool,
) -> bool {
    p.filename@ == filename && mode_of(start) == Some(p.mode@) && p.flags == flags
        && p.globals_as_locals == globals_as_locals
}

/// The outcome of checking what a run is given.
pub open spec fn run_checked(
    r: Result<RunPlan, Failure>,
    filename: Seq<char>,
    start: i32,
    globals: Option<&Object>,
    has_locals: bool,
    flags: i32,
) -> bool {
    if mode_of(start) is None {
        errors::raises(
            r,
            ExcKind::RuntimeError,
            "PyRun_String: bad start token "@ + text::dec(start as int),
        )
    } else {
        match globals {
            None => errors::raises(r, ExcKind::RuntimeError, "PyRun_String: NULL globals"@),
            Some(Object::Dict(_)) => r is Ok && planned(
                r->Ok_0,
                filename,
                start,
                flags,
                !has_locals,
            ),
            Some(_) => errors::raises(r, ExcKind::TypeError, "exec/eval: globals must be a dict"@),
        }
    }
}

fn run_string_impl(
    filename: Vec<char>,
    start: i32,
    globals: Option<&Object>,
    has_locals: bool,
    flags: i32,
) -> (r: Result<RunPlan, Failure>)
    ensures
        run_checked(r, filename@, start, globals, has_locals, flags),
{
    let mode: &'static str = match mode_for_start(start) {
        Some(m) => m,
        None => {
            let mut m: Vec<char> = text::text("PyRun_String: bad start token ");
            push_dec(&mut m, start as i128);
            return Err(raise(ExcKind::RuntimeError, m));
        },
    };
    match globals {
        None => Err(raise_str(ExcKind::RuntimeError, "PyRun_String: NULL globals")),
        Some(Object::Dict(_)) => Ok(
            RunPlan { filename, mode, flags, globals_as_locals: !has_locals },
        ),
        Some(_) => Err(raise_str(ExcKind::TypeError, "exec/eval: globals must be a dict")),
    }
}

/// Check what running a text is given.
pub fn PyRun_StringFlags(
    string: Option<&[char]>,
    start: i32,
    globals: Option<&Object>,
    has_locals: bool,
    flags: Option<PyCompilerFlags>,
) -> (r: Result<RunPlan, Failure>)
    ensures
        match string {
            None => errors::raises(r, ExcKind::RuntimeError, null_string("PyRun_StringFlags"@)),
            Some(_) => run_checked(
                r,
                "<string>"@,
                start,
                globals,
                has_locals,
                flag_word(flags),
            ),
        },
{
    match cstr_arg(string, "PyRun_StringFlags") {
        Err(e) => Err(e),
        Ok(_) => run_string_impl(
            text::text("<string>"),
            start,
            globals,
            has_locals,
            flags_of(flags),
        ),
    }
}

/// Check what running a text is given, with no compiler flags.
pub fn PyRun_String(
    string: Option<&[char]>,
    start: i32,
    globals: Option<&Object>,
    has_locals: bool,
) -> (r: Result<RunPlan, Failure>)
    ensures
        match string {
            None => errors::raises(r, ExcKind::RuntimeError, null_string("PyRun_StringFlags"@)),
            Some(_) => run_checked(r, "<string>"@, start, globals, has_locals, flag_word(None)),
        },
{
    PyRun_StringFlags(string, start, globals, has_locals, None)
}

/// A file name, or what stands for a missing one.
pub open spec fn name_or(filename: Option<&[char]>, default: Seq<char>) -> Seq<char> {
    match filename {
        Some(f) => f@,
        None => default,
    }
}

fn filename_or(filename: Option<&[char]>, default: &str) -> (r: Vec<char>)
    ensures
        r@ == name_or(filename, default@),
{
    match filename {
        Some(f) => copy_text(f),
        None => text::text(default),
    }
}

/// Check what running a file is given.
pub fn PyRun_FileExFlags(
    has_file: bool,
    filename: Option<&[char]>,
    start: i32,
    globals: Option<&Object>,
    has_locals: bool,
    flags: Option<PyCompilerFlags>,
) -> (r: Result<RunPlan, Failure>)
    ensures
        if !has_file {
            errors::raises(r, ExcKind::RuntimeError, "PyRun_File: NULL file"@)
        } else {
            run_checked(
                r,
                name_or(filename, "???"@),
                start,
                globals,
                has_locals,
                flag_word(flags),
            )
        },
{
    if !has_file {
        return Err(raise_str(ExcKind::RuntimeError, "PyRun_File: NULL file"));
    }
    run_string_impl(
        filename_or(filename, "???"),
        start,
        globals,
        has_locals,
        flags_of(flags),
    )
}

/// Check what running a file is given, with no compiler flags.
pub fn PyRun_File(
    has_file: bool,
    filename: Option<&[char]>,
    start: i32,
    globals: Option<&Object>,
    has_locals: bool,
) -> (r: Result<RunPlan, Failure>)
    ensures
        if !has_file {
            errors::raises(r, ExcKind::RuntimeError, "PyRun_File: NULL file"@)
        } else {
            run_checked(r, name_or(filename, "???"@), start, globals, has_locals, flag_word(None))
        },
{
    PyRun_FileExFlags(has_file, filename, start, globals, has_locals, None)
}

/// Check what running a file is given, with no compiler flags. The caller closes the
/// file afterwards where it was asked to.
pub fn PyRun_FileEx(
    has_file: bool,
    filename: Option<&[char]>,
    start: i32,
    globals: Option<&Object>,
    has_locals: bool,
) -> (r: Result<RunPlan, Failure>)
    ensures
        if !has_file {
            errors::raises(r, ExcKind::RuntimeError, "PyRun_File: NULL file"@)
        } else {
            run_checked(r, name_or(filename, "???"@), start, globals, has_locals, flag_word(None))
        },
{
    PyRun_FileExFlags(has_file, filename, start, globals, has_locals, None)
}

/// Check what running a file is given; the file stays open.
pub fn PyRun_FileFlags(
    has_file: bool,
    filename: Option<&[char]>,
    start: i32,
    globals: Option<&Object>,
    has_locals: bool,
    flags: Option<PyCompilerFlags>,
) -> (r: Result<RunPlan, Failure>)
    ensures
        if !has_file {
            errors::raises(r, ExcKind::RuntimeError, "PyRun_File: NULL file"@)
        } else {
            run_checked(r, name_or(filename, "???"@), start, globals, has_locals, flag_word(flags))
        },
{
    PyRun_FileExFlags(has_file, filename, start, globals, has_locals, flags)
}

/// Check what compiling a text is given.
pub fn Py_CompileStringExFlags(
    string: Option<&[char]>,
    filename: Option<&[char]>,
    start: i32,
    flags: Option<PyCompilerFlags>,
) -> (r: Result<RunPlan, Failure>)
    ensures
        match string {
            None => errors::raises(r, ExcKind::RuntimeError, null_string("Py_CompileString"@)),
            Some(_) => if mode_of(start) is None {
                errors::raises(
                    r,
                    ExcKind::RuntimeError,
                    "Py_CompileString: bad start token "@ + text::dec(start as int),
                )
            } else {
                r is Ok && planned(
                    r->Ok_0,
                    name_or(filename, "<string>"@),
                    start,
                    flag_word(flags),
                    false,
                )
            },
        },
{
    if let Err(e) = cstr_arg(string, "Py_CompileString") {
        return Err(e);
    }
    match mode_for_start(start) {
        None => {
            let mut m: Vec<char> = text::text("Py_CompileString: bad start token ");
            push_dec(&mut m, start as i128);
            Err(raise(ExcKind::RuntimeError, m))
        },
        Some(mode) => Ok(
            RunPlan {
                filename: filename_or(filename, "<string>"),
                mode,
                flags: flags_of(flags),
                globals_as_locals: false,
            },
        ),
    }
}

/// Check what compiling a text is given, with no optimisation level of its own.
pub fn Py_CompileStringFlags(
    string: Option<&[char]>,
    filename: Option<&[char]>,
    start: i32,
    flags: Option<PyCompilerFlags>,
) -> (r: Result<RunPlan, Failure>)
    ensures
        match string {
            None => errors::raises(r, ExcKind::RuntimeError, null_string("Py_CompileString"@)),
            Some(_) => if mode_of(start) is None {
                errors::raises(
                    r,
                    ExcKind::RuntimeError,
                    "Py_CompileString: bad start token "@ + text::dec(start as int),
                )
            } else {
                r is Ok && planned(
                    r->Ok_0,
                    name_or(filename, "<string>"@),
                    start,
                    flag_word(flags),
                    false,
                )
            },
        },
{
    Py_CompileStringExFlags(string, filename, start, flags)
}

/// Check what compiling a text is given, with no compiler flags.
pub fn Py_CompileString(string: Option<&[char]>, filename: Option<&[char]>, start: i32) -> (r:
    Result<RunPlan, Failure>)
    ensures
        match string {
            None => errors::raises(r, ExcKind::RuntimeError, null_string("Py_CompileString"@)),
            Some(_) => if mode_of(start) is None {
                errors::raises(
                    r,
                    ExcKind::RuntimeError,
                    "Py_CompileString: bad start token "@ + text::dec(start as int),
                )
            } else {
                r is Ok && planned(
                    r->Ok_0,
                    name_or(filename, "<string>"@),
                    start,
                    flag_word(None),
                    false,
                )
            },
        },
{
    Py_CompileStringExFlags(string, filename, start, None)
}

/// Check what evaluating a code object is given; whether the globals serve as
/// locals too.
pub fn PyEval_EvalCode(has_code: bool, has_globals: bool, has_locals: bool) -> (r: Result<
    bool,
    Failure,
>)
    ensures
        if !has_code {
            errors::raises(r, ExcKind::RuntimeError, "PyEval_EvalCode: NULL code"@)
        } else if !has_globals {
            errors::raises(r, ExcKind::RuntimeError, "PyEval_EvalCode: NULL globals"@)
        } else {
            r is Ok && r->Ok_0 == !has_locals
        },
{
    if !has_code {
        return Err(raise_str(ExcKind::RuntimeError, "PyEval_EvalCode: NULL code"));
    }
    if !has_globals {
        return Err(raise_str(ExcKind::RuntimeError, "PyEval_EvalCode: NULL globals"));
    }
    Ok(!has_locals)
}

/// What came of a call into the interpreter.
#[derive(Clone, Copy, Debug, PartialEq, Eq, Structural)]
pub enum VmOutcome {
    /// The object that came back.
    Done(usize),
    /// An exception, which is pending now.
    Raised,
    /// There is no interpreter.
    NoInterpreter,
}

/// What a run returns: the object, NULL with the pending exception, or NULL
/// with the complaint that there is no interpreter.
pub fn run_result(who: &str, out: VmOutcome) -> (r: Result<usize, Failure>)
    ensures
        match out {
            VmOutcome::Done(p) => r is Ok && r->Ok_0 == p,
            VmOutcome::Raised => errors::silent(r),
            VmOutcome::NoInterpreter => errors::raises(
                r,
                ExcKind::RuntimeError,
                who@ + ": no active interpreter"@,
            ),
        },
{
    match out {
        VmOutcome::Done(p) => Ok(p),
        VmOutcome::Raised => Err(Failure::Silent),
        VmOutcome::NoInterpreter => {
            let mut m: Vec<char> = text::text(who);
            push_str(&mut m, ": no active interpreter");
            Err(raise(ExcKind::RuntimeError, m))
        },
    }
}

/// The process status that a `SystemExit` asks for, and whether its code is
/// printed first.
pub open spec fn exit_of(code: Object) -> (i32, bool) {
    match code {
        Object::PyNone => (0, false),
        Object::Int(i) => (i as i32, false),
        Object::Bool(b) => (
            if b {
                1
            } else {
                0
            },
            false,
        ),
        _ => (1, true),
    }
}

/// What becomes of an exception that nothing caught.
#[derive(Clone, Copy, Debug, PartialEq, Eq, Structural)]
pub enum Uncaught {
    /// End the process with this status, printing the code first if asked.
    Exit(i32, bool),
    /// Report it.
    Report,
}

/// Decide on an exception that nothing caught; `exit_code` is the code of a
/// `SystemExit`.
pub fn print_or_exit(exit_code: Option<&Object>) -> (r: Uncaught)
    ensures
        match exit_code {
            None => r == Uncaught::Report,
            Some(c) => r == Uncaught::Exit(exit_of(*c).0, exit_of(*c).1),
        },
{
    match exit_code {
        None => Uncaught::Report,
        Some(c) => match c {
            Object::PyNone => Uncaught::Exit(0, false),
            Object::Int(i) => Uncaught::Exit(#[verifier::truncate] (*i as i32), false),
            Object::Bool(b) => Uncaught::Exit(
                if *b {
                    1
                } else {
                    0
                },
                false,
            ),
            _ => Uncaught::Exit(1, true),
        },
    }
}

/// What came of running in the main module.
#[derive(Clone, Copy, Debug, PartialEq, Eq, Structural)]
pub enum MainOutcome {
    Done,
    /// An exception, which was reported.
    Raised,
    NoInterpreter,
}

/// The return code of a simple run of a text. `elsewhere` is the return code
/// of a sub-interpreter, where one is current and took the text.
pub fn PyRun_SimpleStringFlags(
    command: Option<&[char]>,
    elsewhere: Option<i32>,
    out: MainOutcome,
) -> (r: Result<i32, Failure>)
    ensures
        match command {
            None => errors::raises(
                r,
                ExcKind::RuntimeError,
                null_string("PyRun_SimpleStringFlags"@),
            ),
            Some(_) => match elsewhere {
                Some(rc) => r is Ok && r->Ok_0 == rc,
                None => match out {
                    MainOutcome::Done => r is Ok && r->Ok_0 == 0,
                    MainOutcome::Raised => r is Ok && r->Ok_0 == -1,
                    MainOutcome::NoInterpreter => errors::raises(
                        r,
                        ExcKind::RuntimeError,
                        "PyRun_SimpleString: interpreter not initialized"@,
                    ),
                },
            },
        },
{
    if let Err(e) = cstr_arg(command, "PyRun_SimpleStringFlags") {
        return Err(e);
    }
    match elsewhere {
        Some(rc) => Ok(rc),
        None => match out {
            MainOutcome::Done => Ok(0),
            MainOutcome::Raised => Ok(-1),
            MainOutcome::NoInterpreter => Err(
                raise_str(
                    ExcKind::RuntimeError,
                    "PyRun_SimpleString: interpreter not initialized",
                ),
            ),
        },
    }
}

/// The return code of a simple run of a text, with no compiler flags.
pub fn PyRun_SimpleString(
    command: Option<&[char]>,
    elsewhere: Option<i32>,
    out: MainOutcome,
) -> (r: Result<i32, Failure>)
    ensures
        match command {
            None => errors::raises(
                r,
                ExcKind::RuntimeError,
                null_string("PyRun_SimpleStringFlags"@),
            ),
            Some(_) => match elsewhere {
                Some(rc) => r is Ok && r->Ok_0 == rc,
                None => match out {
                    MainOutcome::Done => r is Ok && r->Ok_0 == 0,
                    MainOutcome::Raised => r is Ok && r->Ok_0 == -1,
                    MainOutcome::NoInterpreter => errors::raises(
                        r,
                        ExcKind::RuntimeError,
                        "PyRun_SimpleString: interpreter not initialized"@,
                    ),
                },
            },
        },
{
    PyRun_SimpleStringFlags(command, elsewhere, out)
}

/// The return code of a simple run of a file.
pub fn PyRun_SimpleFileExFlags(has_file: bool, out: MainOutcome) -> (r: i32)
    ensures
        r == (if has_file && out is Done {
            0i32
        } else {
            (-1) as i32
        }),
{
    if !has_file {
        return -1;
    }
    match out {
        MainOutcome::Done => 0,
        _ => -1,
    }
}

/// The return code of a simple run of a file that stays open.
pub fn PyRun_SimpleFile(has_file: bool, out: MainOutcome) -> (r: i32)
    ensures
        r == (if has_file && out is Done {
            0i32
        } else {
            (-1) as i32
        }),
{
    PyRun_SimpleFileExFlags(has_file, out)
}

/// The return code of a simple run of a file, with no compiler flags.
pub fn PyRun_SimpleFileEx(has_file: bool, out: MainOutcome) -> (r: i32)
    ensures
        r == (if has_file && out is Done {
            0i32
        } else {
            (-1) as i32
        }),
{
    PyRun_SimpleFileExFlags(has_file, out)
}

/// Whether a file is run interactively: only an open terminal is.
pub fn PyRun_AnyFileExFlags(has_file: bool, terminal: i32) -> (r: bool)
    ensures
        r == (has_file && terminal == 1),
{
    has_file && terminal == 1
}

/// Whether a file that stays open is run as an interactive one.
pub fn PyRun_AnyFile(has_file: bool, terminal: i32) -> (r: bool)
    ensures
        r == (has_file && terminal == 1),
{
    PyRun_AnyFileExFlags(has_file, terminal)
}

/// Whether a file is run as an interactive one, with no compiler flags.
pub fn PyRun_AnyFileEx(has_file: bool, terminal: i32) -> (r: bool)
    ensures
        r == (has_file && terminal == 1),
{
    PyRun_AnyFileExFlags(has_file, terminal)
}

/// Whether a file that stays open is run as an interactive one, with compiler flags.
pub fn PyRun_AnyFileFlags(has_file: bool, terminal: i32) -> (r: bool)
    ensures
        r == (has_file && terminal == 1),
{
    PyRun_AnyFileExFlags(has_file, terminal)
}

/// The chunks that make up the first line: up to the first one that ends in a
/// line feed.
pub open spec fn line_chunks(chunks: Seq<Vec<u8>>, i: int, so_far: Seq<u8>) -> Seq<u8>
    decreases chunks.len() - i,
{
    if i < 0 || i >= chunks.len() {
        so_far
    } else {
        let next = so_far + chunks[i]@;
        if next.len() > 0 && next.last() == 10 {
            next
        } else {
            line_chunks(chunks, i + 1, next)
        }
    }
}

/// One line, out of the chunks that the stream gives until it is at its end.
/// `None` at the end of the stream.
pub fn read_line(chunks: &Vec<Vec<u8>>) -> (r: Option<Vec<u8>>)
    ensures
        match r {
            Some(l) => l@ == line_chunks(chunks@, 0, Seq::empty()) && l@.len() > 0,
            None => line_chunks(chunks@, 0, Seq::empty()).len() == 0,
        },
{
    let mut out: Vec<u8> = Vec::new();
    let mut i: usize = 0;
    while i < chunks.len()
        invariant
            i <= chunks@.len(),
            line_chunks(chunks@, 0, Seq::empty()) == line_chunks(chunks@, i as int, out@),
        decreases chunks.len() - i,
    {
        let ghost before = out@;
        crate::strings::push_bytes(&mut out, chunks[i].as_slice());
        let n: usize = out.len();
        if n > 0 && out[n - 1] == 10 {
            return Some(out);
        }
        i = i + 1;
    }
    if out.len() == 0 {
        return None;
    }
    Some(out)
}

/// The chunks of a stream, joined.
pub open spec fn joined(chunks: Seq<Vec<u8>>, n: int) -> Seq<u8>
    decreases n,
{
    if n <= 0 {
        Seq::empty()
    } else {
        joined(chunks, n - 1) + chunks[n - 1]@
    }
}

/// A whole stream, out of its chunks. `None` where there is no stream.
pub fn read_file_stream(chunks: Option<&Vec<Vec<u8>>>) -> (r: Option<Vec<u8>>)
    ensures
        match chunks {
            None => r is None,
            Some(c) => r is Some && r->0@ == joined(c@, c@.len() as int),
        },
{
    match chunks {
        None => None,
        Some(c) => {
            let mut out: Vec<u8> = Vec::new();
            let mut i: usize = 0;
            while i < c.len()
                invariant
                    i <= c@.len(),
                    out@ == joined(c@, i as int),
                decreases c.len() - i,
            {
                crate::strings::push_bytes(&mut out, c[i].as_slice());
                i = i + 1;
            }
            Some(out)
        },
    }
}

/// The prompt to show and whether the default must be stored first. `set` is
/// the prompt that is set, with its text where it has one.
pub fn prompt(set: Option<Option<&[char]>>, default: &str) -> (r: (Vec<char>, bool))
    ensures
        r.0@ == (match set {
            Some(Some(t)) => t@,
            _ => default@,
        }),
        r.1 == set is None,
{
    match set {
        Some(Some(t)) => (copy_text(t), false),
        Some(None) => (text::text(default), false),
        None => (text::text(default), true),
    }
}

/// The text without the line feeds at its end.
pub open spec fn trimmed(s: Seq<char>) -> Seq<char>
    decreases s.len(),
{
    if s.len() > 0 && s.last() == '\n' {
        trimmed(s.drop_last())
    } else {
        s
    }
}

/// What is asked whether a command is complete: the text without the line
/// feeds at its end.
pub fn command_text(source: &[char]) -> (r: Vec<char>)
    ensures
        r@ == trimmed(source@),
{
    let mut n: usize = source.len();
    assert(source@.subrange(0, n as int) =~= source@);
    while n > 0 && source[n - 1] == '\n'
        invariant
            n <= source@.len(),
            trimmed(source@) == trimmed(source@.subrange(0, n as int)),
        decreases n,
    {
        assert(source@.subrange(0, n as int).drop_last() =~= source@.subrange(0, n - 1));
        n = n - 1;
    }
    slice_of(source, 0, n)
}

/// What is known of a command so far.
#[derive(Clone, Copy, Debug, PartialEq, Eq, Structural)]
pub enum Completeness {
    Complete,
    Incomplete,
    /// It does not compile: the real compilation reports that.
    Failed,
}

/// Another line is wanted for the command.
pub fn wants_line(c: Completeness) -> (r: bool)
    ensures
        r == (c is Incomplete),
{
    match c {
        Completeness::Incomplete => true,
        _ => false,
    }
}

/// The text ends in an empty line.
pub open spec fn ends_blank(s: Seq<char>) -> bool {
    s.len() >= 2 && s[s.len() - 1] == '\n' && s[s.len() - 2] == '\n'
}

/// The line is empty.
pub open spec fn blank(line: Seq<char>) -> bool {
    line.len() == 1 && line[0] == '\n'
}

/// Take a continuation line. Whether to go on asking: the end of the input,
/// and an empty line after an empty line, end the command.
pub fn take_line(source: &mut Vec<char>, line: Option<&[char]>) -> (r: bool)
    ensures
        match line {
            None => !r && final(source)@ == old(source)@,
            Some(l) => if blank(l@) && ends_blank(old(source)@) {
                !r && final(source)@ == old(source)@
            } else {
                r && final(source)@ == old(source)@ + l@
            },
        },
{
    match line {
        None => false,
        Some(l) => {
            let n: usize = source.len();
            if l.len() == 1 && l[0] == '\n' && n >= 2 && source[n - 1] == '\n' && source[n - 2]
                == '\n' {
                return false;
            }
            text::push_all(source, l);
            true
        },
    }
}

/// The return code of one interactive command: `first` says whether there was
/// a line at all.
pub fn PyRun_InteractiveOneFlags(first: bool, out: MainOutcome) -> (r: i32)
    ensures
        r == (match out {
            MainOutcome::NoInterpreter => (-1) as i32,
            _ => if !first {
                E_EOF
            } else if out is Done {
                0i32
            } else {
                (-1) as i32
            },
        }),
{
    match out {
        MainOutcome::NoInterpreter => -1,
        _ => {
            if !first {
                return E_EOF;
            }
            match out {
                MainOutcome::Done => 0,
                _ => -1,
            }
        },
    }
}

/// Whether the interactive loop ends after a command, and with what: only the
/// end of the input ends it.
pub fn PyRun_InteractiveLoopFlags(rc: i32) -> (r: Option<i32>)
    ensures
        r == (if rc == E_EOF {
            Some(0i32)
        } else {
            None
        }),
{
    if rc == E_EOF {
        Some(0)
    } else {
        None
    }
}

/// The return code of one interactive command, with no compiler flags.
pub fn PyRun_InteractiveOne(first: bool, out: MainOutcome) -> (r: i32)
    ensures
        r == (match out {
            MainOutcome::NoInterpreter => (-1) as i32,
            _ => if !first {
                E_EOF
            } else if out is Done {
                0i32
            } else {
                (-1) as i32
            },
        }),
{
    PyRun_InteractiveOneFlags(first, out)
}

/// Whether the interactive loop ends after a command, with no compiler flags.
pub fn PyRun_InteractiveLoop(rc: i32) -> (r: Option<i32>)
    ensures
        r == (if rc == E_EOF {
            Some(0i32)
        } else {
            None
        }),
{
    PyRun_InteractiveLoopFlags(rc)
}

} // verus!
