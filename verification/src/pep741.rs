//! The name-keyed configuration API.
//!
//! Options are addressed by name: integers, strings and string lists, plus a
//! few pre-configuration integers and `"gil"`. Texts are code points; a NULL
//! name or value is `None`.

use vstd::prelude::*;
use crate::errors;
use crate::errors::{raise, raise_str, ExcKind, Failure};
use crate::search;
use crate::text;
use crate::text::{copy_text, push_all, push_dec, push_str};
use crate::value::Object;

verus! {

// ---------------------------------------------------------------------------
// Option names
// ---------------------------------------------------------------------------

/// The integer options that are fields of the configuration.
pub open spec fn int_names() -> Seq<Seq<char>> {
    seq![
        "isolated"@,
        "use_environment"@,
        "dev_mode"@,
        "install_signal_handlers"@,
        "use_hash_seed"@,
        "faulthandler"@,
        "tracemalloc"@,
        "perf_profiling"@,
        "import_time"@,
        "code_debug_ranges"@,
        "show_ref_count"@,
        "dump_refs"@,
        "malloc_stats"@,
        "parse_argv"@,
        "site_import"@,
        "bytes_warning"@,
        "warn_default_encoding"@,
        "inspect"@,
        "interactive"@,
        "optimization_level"@,
        "parser_debug"@,
        "write_bytecode"@,
        "verbose"@,
        "quiet"@,
        "user_site_directory"@,
        "configure_c_stdio"@,
        "buffered_stdio"@,
        "use_frozen_modules"@,
        "safe_path"@,
        "int_max_str_digits"@,
        "cpu_count"@,
        "pathconfig_warnings"@,
        "skip_source_first_line"@,
        "module_search_paths_set"@,
    ]
}

fn int_name(k: usize) -> (r: &'static str)
    requires
        k < 34,
    ensures
        r@ == int_names()[k as int],
{
    match k {
        0 => "isolated",
        1 => "use_environment",
        2 => "dev_mode",
        3 => "install_signal_handlers",
        4 => "use_hash_seed",
        5 => "faulthandler",
        6 => "tracemalloc",
        7 => "perf_profiling",
        8 => "import_time",
        9 => "code_debug_ranges",
        10 => "show_ref_count",
        11 => "dump_refs",
        12 => "malloc_stats",
        13 => "parse_argv",
        14 => "site_import",
        15 => "bytes_warning",
        16 => "warn_default_encoding",
        17 => "inspect",
        18 => "interactive",
        19 => "optimization_level",
        20 => "parser_debug",
        21 => "write_bytecode",
        22 => "verbose",
        23 => "quiet",
        24 => "user_site_directory",
        25 => "configure_c_stdio",
        26 => "buffered_stdio",
        27 => "use_frozen_modules",
        28 => "safe_path",
        29 => "int_max_str_digits",
        30 => "cpu_count",
        31 => "pathconfig_warnings",
        32 => "skip_source_first_line",
        _ => "module_search_paths_set",
    }
}

/// The integer options that are kept beside the configuration.
pub open spec fn pre_names() -> Seq<Seq<char>> {
    seq![
        "hash_seed"@,
        "configure_locale"@,
        "coerce_c_locale"@,
        "coerce_c_locale_warn"@,
        "utf8_mode"@,
        "allocator"@,
        "gil"@,
    ]
}

fn pre_name(k: usize) -> (r: &'static str)
    requires
        k < 7,
    ensures
        r@ == pre_names()[k as int],
{
    match k {
        0 => "hash_seed",
        1 => "configure_locale",
        2 => "coerce_c_locale",
        3 => "coerce_c_locale_warn",
        4 => "utf8_mode",
        5 => "allocator",
        _ => "gil",
    }
}

/// The string options.
pub open spec fn str_names() -> Seq<Seq<char>> {
    seq![
        "dump_refs_file"@,
        "filesystem_encoding"@,
        "filesystem_errors"@,
        "pycache_prefix"@,
        "stdio_encoding"@,
        "stdio_errors"@,
        "check_hash_pycs_mode"@,
        "program_name"@,
        "pythonpath_env"@,
        "home"@,
        "platlibdir"@,
        "stdlib_dir"@,
        "executable"@,
        "base_executable"@,
        "prefix"@,
        "base_prefix"@,
        "exec_prefix"@,
        "base_exec_prefix"@,
        "run_command"@,
        "run_module"@,
        "run_filename"@,
        "sys_path_0"@,
    ]
}

fn str_name(k: usize) -> (r: &'static str)
    requires
        k < 22,
    ensures
        r@ == str_names()[k as int],
{
    match k {
        0 => "dump_refs_file",
        1 => "filesystem_encoding",
        2 => "filesystem_errors",
        3 => "pycache_prefix",
        4 => "stdio_encoding",
        5 => "stdio_errors",
        6 => "check_hash_pycs_mode",
        7 => "program_name",
        8 => "pythonpath_env",
        9 => "home",
        10 => "platlibdir",
        11 => "stdlib_dir",
        12 => "executable",
        13 => "base_executable",
        14 => "prefix",
        15 => "base_prefix",
        16 => "exec_prefix",
        17 => "base_exec_prefix",
        18 => "run_command",
        19 => "run_module",
        20 => "run_filename",
        _ => "sys_path_0",
    }
}

/// The string-list options.
pub open spec fn list_names() -> Seq<Seq<char>> {
    seq![
        "orig_argv"@,
        "argv"@,
        "xoptions"@,
        "warnoptions"@,
        "module_search_paths"@,
    ]
}

fn list_name(k: usize) -> (r: &'static str)
    requires
        k < 5,
    ensures
        r@ == list_names()[k as int],
{
    match k {
        0 => "orig_argv",
        1 => "argv",
        2 => "xoptions",
        3 => "warnoptions",
        _ => "module_search_paths",
    }
}


/// The number of integer fields.
pub const INT_COUNT: usize = 34;

/// The number of integer options beside the configuration.
pub const PRE_COUNT: usize = 7;

/// The number of string options.
pub const STR_COUNT: usize = 22;

/// The number of string-list options.
pub const LIST_COUNT: usize = 5;

/// Whether a text equals a literal.
fn is(s: &[char], lit: &str) -> (r: bool)
    ensures
        r == (s@ == lit@),
{
    let n: usize = lit.unicode_len();
    if s.len() != n {
        return false;
    }
    let mut i: usize = 0;
    while i < n
        invariant
            i <= n,
            n == s@.len(),
            n == lit@.len(),
            forall|k: int| 0 <= k < i ==> s@[k] == lit@[k],
        decreases n - i,
    {
        if s[i] != lit.get_char(i) {
            return false;
        }
        i = i + 1;
    }
    assert(s@ =~= lit@);
    true
}

/// The index of a name in a table, from `i` on; the table's length where it is
/// missing.
pub open spec fn index_in(names: Seq<Seq<char>>, name: Seq<char>, i: int) -> int
    decreases names.len() - i,
{
    if i < 0 || i >= names.len() || names[i] == name {
        i
    } else {
        index_in(names, name, i + 1)
    }
}

/// The integer field of a name.
pub fn int_slot(name: &[char]) -> (r: Option<usize>)
    ensures
        match r {
            Some(k) => k == index_in(int_names(), name@, 0) && k < INT_COUNT,
            None => index_in(int_names(), name@, 0) == INT_COUNT,
        },
{
    let mut k: usize = 0;
    while k < INT_COUNT
        invariant
            k <= INT_COUNT,
            int_names().len() == INT_COUNT,
            index_in(int_names(), name@, 0) == index_in(int_names(), name@, k as int),
        decreases INT_COUNT - k,
    {
        if is(name, int_name(k)) {
            return Some(k);
        }
        k = k + 1;
    }
    None
}

fn pre_slot(name: &[char]) -> (r: Option<usize>)
    ensures
        match r {
            Some(k) => k == index_in(pre_names(), name@, 0) && k < PRE_COUNT,
            None => index_in(pre_names(), name@, 0) == PRE_COUNT,
        },
{
    let mut k: usize = 0;
    while k < PRE_COUNT
        invariant
            k <= PRE_COUNT,
            pre_names().len() == PRE_COUNT,
            index_in(pre_names(), name@, 0) == index_in(pre_names(), name@, k as int),
        decreases PRE_COUNT - k,
    {
        if is(name, pre_name(k)) {
            return Some(k);
        }
        k = k + 1;
    }
    None
}

/// The string field of a name.
pub fn str_slot(name: &[char]) -> (r: Option<usize>)
    ensures
        match r {
            Some(k) => k == index_in(str_names(), name@, 0) && k < STR_COUNT,
            None => index_in(str_names(), name@, 0) == STR_COUNT,
        },
{
    let mut k: usize = 0;
    while k < STR_COUNT
        invariant
            k <= STR_COUNT,
            str_names().len() == STR_COUNT,
            index_in(str_names(), name@, 0) == index_in(str_names(), name@, k as int),
        decreases STR_COUNT - k,
    {
        if is(name, str_name(k)) {
            return Some(k);
        }
        k = k + 1;
    }
    None
}

/// The string-list field of a name.
pub fn list_slot(name: &[char]) -> (r: Option<usize>)
    ensures
        match r {
            Some(k) => k == index_in(list_names(), name@, 0) && k < LIST_COUNT,
            None => index_in(list_names(), name@, 0) == LIST_COUNT,
        },
{
    let mut k: usize = 0;
    while k < LIST_COUNT
        invariant
            k <= LIST_COUNT,
            list_names().len() == LIST_COUNT,
            index_in(list_names(), name@, 0) == index_in(list_names(), name@, k as int),
        decreases LIST_COUNT - k,
    {
        if is(name, list_name(k)) {
            return Some(k);
        }
        k = k + 1;
    }
    None
}

/// The name is in the table.
pub open spec fn listed(names: Seq<Seq<char>>, name: Seq<char>) -> bool {
    index_in(names, name, 0) < names.len()
}

/// The name is an integer option.
pub open spec fn is_int_option(name: Seq<char>) -> bool {
    listed(int_names(), name) || listed(pre_names(), name)
}

/// The name is an option.
pub open spec fn known(name: Seq<char>) -> bool {
    is_int_option(name) || listed(str_names(), name) || listed(list_names(), name)
}

/// Whether a name is an option.
pub fn is_known_option(name: &[char]) -> (r: bool)
    ensures
        r == known(name@),
{
    int_slot(name).is_some() || pre_slot(name).is_some() || str_slot(name).is_some() || list_slot(
        name,
    ).is_some()
}

/// Whether a name is an option; a NULL name is none.
pub fn PyInitConfig_HasOption(name: Option<&[char]>) -> (r: bool)
    ensures
        r == (name matches Some(n) && known(n@)),
{
    match name {
        Some(n) => is_known_option(n),
        None => false,
    }
}

// ---------------------------------------------------------------------------
// The configuration object
// ---------------------------------------------------------------------------

/// The fields of a configuration, each table in the order of its names.
#[derive(Debug)]
pub struct PyConfig {
    pub ints: Vec<i32>,
    pub hash_seed: u64,
    pub strs: Vec<Option<Vec<char>>>,
    pub lists: Vec<Vec<Vec<char>>>,
}

impl PyConfig {
    /// Every table has its length.
    pub open spec fn wf(&self) -> bool {
        self.ints@.len() == INT_COUNT && self.strs@.len() == STR_COUNT && self.lists@.len()
            == LIST_COUNT
    }

    /// Every integer zero, every text unset, every list empty.
    pub fn zeroed() -> (r: PyConfig)
        ensures
            r.wf(),
            r.hash_seed == 0,
            forall|i: int| 0 <= i < INT_COUNT ==> r.ints@[i] == 0,
            forall|i: int| 0 <= i < STR_COUNT ==> r.strs@[i] is None,
            forall|i: int| 0 <= i < LIST_COUNT ==> r.lists@[i]@.len() == 0,
    {
        let mut ints: Vec<i32> = Vec::new();
        while ints.len() < INT_COUNT
            invariant
                ints@.len() <= INT_COUNT,
                forall|i: int| 0 <= i < ints@.len() ==> ints@[i] == 0,
            decreases INT_COUNT - ints@.len(),
        {
            ints.push(0);
        }
        let mut strs: Vec<Option<Vec<char>>> = Vec::new();
        while strs.len() < STR_COUNT
            invariant
                strs@.len() <= STR_COUNT,
                forall|i: int| 0 <= i < strs@.len() ==> strs@[i] is None,
            decreases STR_COUNT - strs@.len(),
        {
            strs.push(None);
        }
        let mut lists: Vec<Vec<Vec<char>>> = Vec::new();
        while lists.len() < LIST_COUNT
            invariant
                lists@.len() <= LIST_COUNT,
                forall|i: int| 0 <= i < lists@.len() ==> lists@[i]@.len() == 0,
            decreases LIST_COUNT - lists@.len(),
        {
            lists.push(Vec::new());
        }
        PyConfig { ints, hash_seed: 0, strs, lists }
    }
}

/// A configuration under construction, with its error state.
#[derive(Debug)]
pub struct PyInitConfig {
    pub config: PyConfig,
    pub configure_locale: i64,
    pub coerce_c_locale: i64,
    pub coerce_c_locale_warn: i64,
    pub utf8_mode: i64,
    pub allocator: i64,
    pub gil: Option<i64>,
    /// Modules to add to the table of builtin modules: name and init function.
    pub modules: Vec<(Vec<char>, usize)>,
    pub err_msg: Option<Vec<char>>,
    pub exitcode: Option<i32>,
}

/// The mathematical content of a [`PyInitConfig`].
#[verifier::ext_equal]
pub struct ConfigView {
    pub ints: Seq<i32>,
    pub hash_seed: u64,
    pub strs: Seq<Option<Seq<char>>>,
    pub lists: Seq<Seq<Seq<char>>>,
    pub configure_locale: i64,
    pub coerce_c_locale: i64,
    pub coerce_c_locale_warn: i64,
    pub utf8_mode: i64,
    pub allocator: i64,
    pub gil: Option<i64>,
    pub modules: Seq<(Seq<char>, usize)>,
    pub err: Option<Seq<char>>,
    pub exitcode: Option<i32>,
}

/// The content of an optional text.
pub open spec fn opt(s: Option<Vec<char>>) -> Option<Seq<char>> {
    match s {
        Some(t) => Some(t@),
        None => None,
    }
}

impl View for PyInitConfig {
    type V = ConfigView;

    open spec fn view(&self) -> ConfigView {
        ConfigView {
            ints: self.config.ints@,
            hash_seed: self.config.hash_seed,
            strs: self.config.strs@.map_values(|s: Option<Vec<char>>| opt(s)),
            lists: self.config.lists@.map_values(|l: Vec<Vec<char>>| search::texts(l@)),
            configure_locale: self.configure_locale,
            coerce_c_locale: self.coerce_c_locale,
            coerce_c_locale_warn: self.coerce_c_locale_warn,
            utf8_mode: self.utf8_mode,
            allocator: self.allocator,
            gil: self.gil,
            modules: self.modules@.map_values(|p: (Vec<char>, usize)| (p.0@, p.1)),
            err: opt(self.err_msg),
            exitcode: self.exitcode,
        }
    }
}

/// A text with its NULs replaced by question marks.
pub open spec fn without_nul(m: Seq<char>) -> Seq<char> {
    m.map_values(
        |c: char|
            if c == '\0' {
                '?'
            } else {
                c
            },
    )
}

impl ConfigView {
    /// The same configuration with an error recorded.
    pub open spec fn failed(self, m: Seq<char>) -> ConfigView {
        ConfigView { err: Some(without_nul(m)), ..self }
    }
}

/// The index of the flag that a hash seed turns on.
pub const USE_HASH_SEED: usize = 4;

/// The index of the flag that search paths turn on.
pub const SEARCH_PATHS_SET: usize = 33;

/// The index of the `-X` options among the lists.
pub const XOPTIONS: usize = 2;

/// The index of the search paths among the lists.
pub const SEARCH_PATHS: usize = 4;

impl PyInitConfig {
    /// Every table has its length.
    pub open spec fn wf(&self) -> bool {
        self.config.wf()
    }

    /// Record an error.
    fn set_error(&mut self, msg: Vec<char>) -> (r: i32)
        requires
            old(self).wf(),
        ensures
            r == -1,
            final(self).wf(),
            final(self)@ == old(self)@.failed(msg@),
    {
        let mut out: Vec<char> = Vec::new();
        let mut i: usize = 0;
        while i < msg.len()
            invariant
                i <= msg@.len(),
                out@ == without_nul(msg@.subrange(0, i as int)),
            decreases msg.len() - i,
        {
            out.push(
                if msg[i] == '\0' {
                    '?'
                } else {
                    msg[i]
                },
            );
            i = i + 1;
            assert(out@ =~= without_nul(msg@.subrange(0, i as int)));
        }
        assert(msg@.subrange(0, msg@.len() as int) =~= msg@);
        self.err_msg = Some(out);
        assert(self@ =~= old(self)@.failed(msg@));
        -1
    }
}

/// A new configuration on top of the isolated defaults: UTF-8 mode on, the
/// other pre-configuration options off, no lock mode, no modules, no error.
pub fn PyInitConfig_Create(isolated: PyConfig) -> (r: PyInitConfig)
    requires
        isolated.wf(),
    ensures
        r.wf(),
        r.config == isolated,
        r.configure_locale == 0,
        r.coerce_c_locale == 0,
        r.coerce_c_locale_warn == 0,
        r.utf8_mode == 1,
        r.allocator == 0,
        r.gil is None,
        r.modules@.len() == 0,
        r.err_msg is None,
        r.exitcode is None,
{
    PyInitConfig {
        config: isolated,
        configure_locale: 0,
        coerce_c_locale: 0,
        coerce_c_locale_warn: 0,
        utf8_mode: 1,
        allocator: 0,
        gil: None,
        modules: Vec::new(),
        err_msg: None,
        exitcode: None,
    }
}

/// The recorded error message.
pub fn PyInitConfig_GetError(c: &PyInitConfig) -> (r: Option<Vec<char>>)
    ensures
        opt(r) == opt(c.err_msg),
{
    match &c.err_msg {
        Some(m) => Some(copy_text(m.as_slice())),
        None => None,
    }
}

/// The recorded exit code.
pub fn PyInitConfig_GetExitCode(c: &PyInitConfig) -> (r: Option<i32>)
    ensures
        r == c.exitcode,
{
    c.exitcode
}

// ---------------------------------------------------------------------------
// Setters
// ---------------------------------------------------------------------------

/// `"<name>"<rest>`.
pub open spec fn quoted(name: Seq<char>, rest: Seq<char>) -> Seq<char> {
    "\""@ + name + rest
}

/// The message for a name that is no option.
pub open spec fn unknown_message(name: Seq<char>) -> Seq<char> {
    "unknown option name \""@ + name + "\""@
}

/// The message for an option of another type, or for no option at all.
pub open spec fn mismatch(name: Seq<char>, what: Seq<char>) -> Seq<char> {
    if known(name) {
        quoted(name, what)
    } else {
        unknown_message(name)
    }
}

fn quote(name: &[char], rest: &str) -> (r: Vec<char>)
    ensures
        r@ == quoted(name@, rest@),
{
    let mut m: Vec<char> = text::text("\"");
    push_all(&mut m, name);
    push_str(&mut m, rest);
    m
}

fn unknown(name: &[char]) -> (r: Vec<char>)
    ensures
        r@ == unknown_message(name@),
{
    let mut m: Vec<char> = text::text("unknown option name \"");
    push_all(&mut m, name);
    push_str(&mut m, "\"");
    m
}

fn mismatch_text(name: &[char], what: &str) -> (r: Vec<char>)
    ensures
        r@ == mismatch(name@, what@),
{
    if is_known_option(name) {
        quote(name, what)
    } else {
        unknown(name)
    }
}

/// Set an integer option: the new state and the return code.
pub open spec fn set_int(c: ConfigView, name: Option<Seq<char>>, value: i64) -> (ConfigView, int) {
    match name {
        None => (c.failed("PyInitConfig_SetInt: NULL option name"@), -1),
        Some(n) => {
            let p = index_in(pre_names(), n, 0);
            let k = index_in(int_names(), n, 0);
            if p == 0 {
                (
                    ConfigView {
                        hash_seed: value as u64,
                        ints: c.ints.update(USE_HASH_SEED as int, 1),
                        ..c
                    },
                    0,
                )
            } else if p == 1 {
                (ConfigView { configure_locale: value, ..c }, 0)
            } else if p == 2 {
                (ConfigView { coerce_c_locale: value, ..c }, 0)
            } else if p == 3 {
                (ConfigView { coerce_c_locale_warn: value, ..c }, 0)
            } else if p == 4 {
                (ConfigView { utf8_mode: value, ..c }, 0)
            } else if p == 5 {
                (ConfigView { allocator: value, ..c }, 0)
            } else if p == 6 {
                if value != 0 && value != 1 {
                    (c.failed("invalid \"gil\" value: "@ + text::dec(value as int)), -1)
                } else {
                    (ConfigView { gil: Some(value), ..c }, 0)
                }
            } else if k < INT_COUNT {
                if value < i32::MIN || value > i32::MAX {
                    (
                        c.failed(
                            quoted(n, "\" value is out of range: "@) + text::dec(value as int),
                        ),
                        -1,
                    )
                } else {
                    (ConfigView { ints: c.ints.update(k, value as i32), ..c }, 0)
                }
            } else {
                (c.failed(mismatch(n, "\" is not an int option"@)), -1)
            }
        },
    }
}

/// The content of an optional slice.
pub open spec fn opt_slice(s: Option<&[char]>) -> Option<Seq<char>> {
    match s {
        Some(t) => Some(t@),
        None => None,
    }
}

/// Set an integer option. Zero on success, -1 with an error recorded.
pub fn PyInitConfig_SetInt(c: &mut PyInitConfig, name: Option<&[char]>, value: i64) -> (r: i32)
    requires
        old(c).wf(),
    ensures
        final(c).wf(),
        (final(c)@, r as int) == set_int(old(c)@, opt_slice(name), value),
{
    let n = match name {
        None => {
            return c.set_error(text::text("PyInitConfig_SetInt: NULL option name"));
        },
        Some(n) => n,
    };
    let ghost goal = set_int(c@, Some(n@), value);
    if let Some(p) = pre_slot(n) {
        match p {
            0 => {
                c.config.hash_seed = #[verifier::truncate] (value as u64);
                c.config.ints.set(USE_HASH_SEED, 1);
            },
            1 => {
                c.configure_locale = value;
            },
            2 => {
                c.coerce_c_locale = value;
            },
            3 => {
                c.coerce_c_locale_warn = value;
            },
            4 => {
                c.utf8_mode = value;
            },
            5 => {
                c.allocator = value;
            },
            _ => {
                if value != 0 && value != 1 {
                    let mut m: Vec<char> = text::text("invalid \"gil\" value: ");
                    push_dec(&mut m, value as i128);
                    return c.set_error(m);
                }
                c.gil = Some(value);
            },
        }
        assert(c@ =~= goal.0);
        return 0;
    }
    if let Some(k) = int_slot(n) {
        if value < i32::MIN as i64 || value > i32::MAX as i64 {
            let mut m: Vec<char> = quote(n, "\" value is out of range: ");
            push_dec(&mut m, value as i128);
            return c.set_error(m);
        }
        c.config.ints.set(k, value as i32);
        assert(c@ =~= goal.0);
        return 0;
    }
    c.set_error(mismatch_text(n, "\" is not an int option"))
}

/// Set a string option: the new state and the return code.
pub open spec fn set_str(c: ConfigView, name: Option<Seq<char>>, value: Option<Seq<char>>) -> (
    ConfigView,
    int,
) {
    match name {
        None => (c.failed("PyInitConfig_SetStr: NULL option name"@), -1),
        Some(n) => {
            let k = index_in(str_names(), n, 0);
            if k >= STR_COUNT {
                (c.failed(mismatch(n, "\" is not a string option"@)), -1)
            } else {
                match value {
                    None => (c.failed(quoted(n, "\": NULL value"@)), -1),
                    Some(v) => (ConfigView { strs: c.strs.update(k, Some(v)), ..c }, 0),
                }
            }
        },
    }
}

/// Set a string option. Zero on success, -1 with an error recorded.
pub fn PyInitConfig_SetStr(c: &mut PyInitConfig, name: Option<&[char]>, value: Option<&[char]>)
    -> (r: i32)
    requires
        old(c).wf(),
    ensures
        final(c).wf(),
        (final(c)@, r as int) == set_str(old(c)@, opt_slice(name), opt_slice(value)),
{
    let n = match name {
        None => {
            return c.set_error(text::text("PyInitConfig_SetStr: NULL option name"));
        },
        Some(n) => n,
    };
    let ghost goal = set_str(c@, Some(n@), opt_slice(value));
    let k: usize = match str_slot(n) {
        None => {
            return c.set_error(mismatch_text(n, "\" is not a string option"));
        },
        Some(k) => k,
    };
    match value {
        None => c.set_error(quote(n, "\": NULL value")),
        Some(v) => {
            c.config.strs.set(k, Some(copy_text(v)));
            assert(c@ =~= goal.0);
            0
        },
    }
}

/// The first missing item at or after `i`.
pub open spec fn null_item(items: Seq<Option<Vec<char>>>, n: int, i: int) -> int
    decreases n - i,
{
    if i < 0 || i >= n || items[i] is None {
        i
    } else {
        null_item(items, n, i + 1)
    }
}

/// The texts of the first `n` items.
pub open spec fn item_texts(items: Seq<Option<Vec<char>>>, n: int) -> Seq<Seq<char>> {
    Seq::new(n as nat, |i: int| items[i]->0@)
}

/// Set a string-list option: the new state and the return code.
pub open spec fn set_list(
    c: ConfigView,
    name: Option<Seq<char>>,
    length: int,
    items: Option<Seq<Option<Vec<char>>>>,
) -> (ConfigView, int) {
    match name {
        None => (c.failed("PyInitConfig_SetStrList: NULL option name"@), -1),
        Some(n) => {
            let k = index_in(list_names(), n, 0);
            if k >= LIST_COUNT {
                (c.failed(mismatch(n, "\" is not a string list option"@)), -1)
            } else if length > 0 && items is None {
                (c.failed(quoted(n, "\": NULL items"@)), -1)
            } else if items is Some && null_item(items->0, length, 0) < length {
                (
                    c.failed(
                        quoted(n, "\": NULL item at index "@) + text::dec(
                            null_item(items->0, length, 0),
                        ),
                    ),
                    -1,
                )
            } else {
                let v = if length > 0 {
                    item_texts(items->0, length)
                } else {
                    Seq::empty()
                };
                (
                    ConfigView {
                        lists: c.lists.update(k, v),
                        ints: if k == SEARCH_PATHS {
                            c.ints.update(SEARCH_PATHS_SET as int, 1)
                        } else {
                            c.ints
                        },
                        ..c
                    },
                    0,
                )
            }
        },
    }
}

/// Set a string-list option. Giving search paths marks them as set. Zero on
/// success, -1 with an error recorded.
pub fn PyInitConfig_SetStrList(
    c: &mut PyInitConfig,
    name: Option<&[char]>,
    length: usize,
    items: Option<&Vec<Option<Vec<char>>>>,
) -> (r: i32)
    requires
        old(c).wf(),
        items matches Some(v) ==> length <= v@.len(),
    ensures
        final(c).wf(),
        (final(c)@, r as int) == set_list(
            old(c)@,
            opt_slice(name),
            length as int,
            match items {
                Some(v) => Some(v@),
                None => None,
            },
        ),
{
    let n = match name {
        None => {
            return c.set_error(text::text("PyInitConfig_SetStrList: NULL option name"));
        },
        Some(n) => n,
    };
    let ghost goal = set_list(
        c@,
        Some(n@),
        length as int,
        match items {
            Some(v) => Some(v@),
            None => None,
        },
    );
    let k: usize = match list_slot(n) {
        None => {
            return c.set_error(mismatch_text(n, "\" is not a string list option"));
        },
        Some(k) => k,
    };
    let mut values: Vec<Vec<char>> = Vec::new();
    match items {
        None => {
            if length > 0 {
                return c.set_error(quote(n, "\": NULL items"));
            }
        },
        Some(v) => {
            let mut i: usize = 0;
            while i < length
                invariant
                    i <= length <= v@.len(),
                    c.wf(),
                    c@ == old(c)@,
                    null_item(v@, length as int, 0) == null_item(v@, length as int, i as int),
                    search::texts(values@) == item_texts(v@, i as int),
                    name matches Some(x) && x@ == n@,
                    items == Some(v),
                    index_in(list_names(), n@, 0) < LIST_COUNT,
                decreases length - i,
            {
                match &v[i] {
                    None => {
                        let mut m: Vec<char> = quote(n, "\": NULL item at index ");
                        push_dec(&mut m, i as i128);
                        return c.set_error(m);
                    },
                    Some(t) => {
                        search::push_piece(&mut values, copy_text(t.as_slice()));
                        assert(search::texts(values@) =~= item_texts(v@, i + 1));
                    },
                }
                i = i + 1;
            }
        },
    }
    c.config.lists.set(k, values);
    if k == SEARCH_PATHS {
        c.config.ints.set(SEARCH_PATHS_SET, 1);
    }
    assert(search::texts(values@) =~= if length > 0 {
        item_texts(items->0@, length as int)
    } else {
        Seq::empty()
    });
    assert(c@.lists =~= goal.0.lists);
    assert(c@ =~= goal.0);
    0
}

/// Record a module for the table of builtin modules. Zero on success, -1 with
/// an error recorded.
pub fn PyInitConfig_AddModule(c: &mut PyInitConfig, name: Option<&[char]>, initfunc: Option<usize>)
    -> (r: i32)
    requires
        old(c).wf(),
    ensures
        final(c).wf(),
        match (name, initfunc) {
            (None, _) => r == -1 && final(c)@ == old(c)@.failed(
                "PyInitConfig_AddModule: NULL module name"@,
            ),
            (Some(_), None) => r == -1 && final(c)@ == old(c)@.failed(
                "PyInitConfig_AddModule: NULL init function"@,
            ),
            (Some(n), Some(f)) => r == 0 && final(c)@ == (ConfigView {
                modules: old(c)@.modules.push((n@, f)),
                ..old(c)@
            }),
        },
{
    match name {
        None => c.set_error(text::text("PyInitConfig_AddModule: NULL module name")),
        Some(n) => match initfunc {
            None => c.set_error(text::text("PyInitConfig_AddModule: NULL init function")),
            Some(f) => {
                c.modules.push((copy_text(n), f));
                assert(c@.modules =~= old(c)@.modules.push((n@, f)));
                0
            },
        },
    }
}

// ---------------------------------------------------------------------------
// Getters
// ---------------------------------------------------------------------------

/// Read an integer option; a failure records its message.
pub open spec fn get_int(c: ConfigView, name: Option<Seq<char>>) -> Result<i64, Seq<char>> {
    match name {
        None => Err("PyInitConfig_GetInt: NULL option name"@),
        Some(n) => {
            let p = index_in(pre_names(), n, 0);
            let k = index_in(int_names(), n, 0);
            if p == 0 {
                Ok(c.hash_seed as i64)
            } else if p == 1 {
                Ok(c.configure_locale)
            } else if p == 2 {
                Ok(c.coerce_c_locale)
            } else if p == 3 {
                Ok(c.coerce_c_locale_warn)
            } else if p == 4 {
                Ok(c.utf8_mode)
            } else if p == 5 {
                Ok(c.allocator)
            } else if p == 6 {
                Ok(
                    match c.gil {
                        Some(g) => g,
                        None => 1,
                    },
                )
            } else if k < INT_COUNT {
                Ok(c.ints[k] as i64)
            } else {
                Err(mismatch(n, "\" is not an int option"@))
            }
        },
    }
}

/// Read an integer option; `None` where it fails with an error recorded.
pub fn PyInitConfig_GetInt(c: &mut PyInitConfig, name: Option<&[char]>) -> (r: Option<i64>)
    requires
        old(c).wf(),
    ensures
        final(c).wf(),
        match get_int(old(c)@, opt_slice(name)) {
            Ok(v) => r == Some(v) && final(c)@ == old(c)@,
            Err(m) => r is None && final(c)@ == old(c)@.failed(m),
        },
{
    let n = match name {
        None => {
            c.set_error(text::text("PyInitConfig_GetInt: NULL option name"));
            return None;
        },
        Some(n) => n,
    };
    if let Some(p) = pre_slot(n) {
        return Some(
            match p {
                0 => #[verifier::truncate] (c.config.hash_seed as i64),
                1 => c.configure_locale,
                2 => c.coerce_c_locale,
                3 => c.coerce_c_locale_warn,
                4 => c.utf8_mode,
                5 => c.allocator,
                _ => match c.gil {
                    Some(g) => g,
                    None => 1,
                },
            },
        );
    }
    match int_slot(n) {
        Some(k) => Some(c.config.ints[k] as i64),
        None => {
            let m: Vec<char> = mismatch_text(n, "\" is not an int option");
            c.set_error(m);
            None
        },
    }
}

/// Read a string option; a failure records its message.
pub open spec fn get_str(c: ConfigView, name: Option<Seq<char>>) -> Result<
    Option<Seq<char>>,
    Seq<char>,
> {
    match name {
        None => Err("PyInitConfig_GetStr: NULL option name"@),
        Some(n) => {
            let k = index_in(str_names(), n, 0);
            if k < STR_COUNT {
                Ok(c.strs[k])
            } else {
                Err(mismatch(n, "\" is not a string option"@))
            }
        },
    }
}

/// Read a string option. An unset option is read as `None`, successfully; the
/// outer `None` is a failure with an error recorded.
pub fn PyInitConfig_GetStr(c: &mut PyInitConfig, name: Option<&[char]>) -> (r: Option<
    Option<Vec<char>>,
>)
    requires
        old(c).wf(),
    ensures
        final(c).wf(),
        match get_str(old(c)@, opt_slice(name)) {
            Ok(v) => r is Some && opt(r->0) == v && final(c)@ == old(c)@,
            Err(m) => r is None && final(c)@ == old(c)@.failed(m),
        },
{
    let n = match name {
        None => {
            c.set_error(text::text("PyInitConfig_GetStr: NULL option name"));
            return None;
        },
        Some(n) => n,
    };
    match str_slot(n) {
        Some(k) => {
            let v: Option<Vec<char>> = match &c.config.strs[k] {
                Some(t) => Some(copy_text(t.as_slice())),
                None => None,
            };
            Some(v)
        },
        None => {
            let m: Vec<char> = mismatch_text(n, "\" is not a string option");
            c.set_error(m);
            None
        },
    }
}

/// Read a string-list option; a failure records its message.
pub open spec fn get_list(c: ConfigView, name: Option<Seq<char>>) -> Result<
    Seq<Seq<char>>,
    Seq<char>,
> {
    match name {
        None => Err("PyInitConfig_GetStrList: NULL option name"@),
        Some(n) => {
            let k = index_in(list_names(), n, 0);
            if k < LIST_COUNT {
                Ok(c.lists[k])
            } else {
                Err(mismatch(n, "\" is not a string list option"@))
            }
        },
    }
}

fn copy_list(v: &Vec<Vec<char>>) -> (r: Vec<Vec<char>>)
    ensures
        search::texts(r@) == search::texts(v@),
{
    let mut out: Vec<Vec<char>> = Vec::new();
    let mut i: usize = 0;
    while i < v.len()
        invariant
            i <= v@.len(),
            search::texts(out@) == search::texts(v@).subrange(0, i as int),
        decreases v.len() - i,
    {
        search::push_piece(&mut out, copy_text(v[i].as_slice()));
        assert(search::texts(v@)[i as int] == v@[i as int]@);
        i = i + 1;
        assert(search::texts(out@) =~= search::texts(v@).subrange(0, i as int));
    }
    assert(search::texts(out@) =~= search::texts(v@));
    out
}

/// Read a string-list option; `None` where it fails with an error recorded.
pub fn PyInitConfig_GetStrList(c: &mut PyInitConfig, name: Option<&[char]>) -> (r: Option<
    Vec<Vec<char>>,
>)
    requires
        old(c).wf(),
    ensures
        final(c).wf(),
        match get_list(old(c)@, opt_slice(name)) {
            Ok(v) => r is Some && search::texts(r->0@) == v && final(c)@ == old(c)@,
            Err(m) => r is None && final(c)@ == old(c)@.failed(m),
        },
{
    let n = match name {
        None => {
            c.set_error(text::text("PyInitConfig_GetStrList: NULL option name"));
            return None;
        },
        Some(n) => n,
    };
    match list_slot(n) {
        Some(k) => Some(copy_list(&c.config.lists[k])),
        None => {
            let m: Vec<char> = mismatch_text(n, "\" is not a string list option");
            c.set_error(m);
            None
        },
    }
}

/// The length and the first letters of a name tell its kind: an integer, a text
/// or a list of texts.
spec fn kind_mark(s: Seq<char>) -> int {
    let n = s.len();
    if n == 4 {
        if s[0] == 'h' {
            1
        } else {
            2
        }
    } else if n == 6 {
        1
    } else if n == 8 {
        if s[0] == 'x' {
            2
        } else {
            0
        }
    } else if n == 9 {
        if s[0] == 'o' {
            2
        } else {
            0
        }
    } else if n == 10 {
        if s[0] == 'p' && s[1] == 'a' {
            0
        } else {
            1
        }
    } else if n == 11 {
        if s[0] == 'w' {
            2
        } else if s[0] == 'b' || s[0] == 'e' || s[0] == 'r' {
            1
        } else {
            0
        }
    } else if n == 12 {
        if s[0] == 's' || s[0] == 'r' || s[1] == 'r' {
            1
        } else {
            0
        }
    } else if n == 14 {
        if s[0] == 'd' || s[1] == 'y' || s[1] == 't' {
            1
        } else {
            0
        }
    } else if n == 15 || n == 16 {
        if s[0] == 'b' {
            1
        } else {
            0
        }
    } else if n == 17 || n == 19 {
        if s[0] == 'f' {
            1
        } else if s[0] == 'm' {
            2
        } else {
            0
        }
    } else if n == 20 {
        if s[1] == 'h' {
            1
        } else {
            0
        }
    } else {
        0
    }
}

proof fn lemma_int_mark(i: int)
    requires
        0 <= i < int_names().len(),
    ensures
        kind_mark(int_names()[i]) == 0,
{
    if i == 0 {
        reveal_strlit("isolated");
        assert(int_names()[0] == "isolated"@);
    } else if i == 1 {
        reveal_strlit("use_environment");
        assert(int_names()[1] == "use_environment"@);
    } else if i == 2 {
        reveal_strlit("dev_mode");
        assert(int_names()[2] == "dev_mode"@);
    } else if i == 3 {
        reveal_strlit("install_signal_handlers");
        assert(int_names()[3] == "install_signal_handlers"@);
    } else if i == 4 {
        reveal_strlit("use_hash_seed");
        assert(int_names()[4] == "use_hash_seed"@);
    } else if i == 5 {
        reveal_strlit("faulthandler");
        assert(int_names()[5] == "faulthandler"@);
    } else if i == 6 {
        reveal_strlit("tracemalloc");
        assert(int_names()[6] == "tracemalloc"@);
    } else if i == 7 {
        reveal_strlit("perf_profiling");
        assert(int_names()[7] == "perf_profiling"@);
    } else if i == 8 {
        reveal_strlit("import_time");
        assert(int_names()[8] == "import_time"@);
    } else if i == 9 {
        reveal_strlit("code_debug_ranges");
        assert(int_names()[9] == "code_debug_ranges"@);
    } else if i == 10 {
        reveal_strlit("show_ref_count");
        assert(int_names()[10] == "show_ref_count"@);
    } else if i == 11 {
        reveal_strlit("dump_refs");
        assert(int_names()[11] == "dump_refs"@);
    } else if i == 12 {
        reveal_strlit("malloc_stats");
        assert(int_names()[12] == "malloc_stats"@);
    } else if i == 13 {
        reveal_strlit("parse_argv");
        assert(int_names()[13] == "parse_argv"@);
    } else if i == 14 {
        reveal_strlit("site_import");
        assert(int_names()[14] == "site_import"@);
    } else if i == 15 {
        reveal_strlit("bytes_warning");
        assert(int_names()[15] == "bytes_warning"@);
    } else if i == 16 {
        reveal_strlit("warn_default_encoding");
        assert(int_names()[16] == "warn_default_encoding"@);
    } else if i == 17 {
        reveal_strlit("inspect");
        assert(int_names()[17] == "inspect"@);
    } else if i == 18 {
        reveal_strlit("interactive");
        assert(int_names()[18] == "interactive"@);
    } else if i == 19 {
        reveal_strlit("optimization_level");
        assert(int_names()[19] == "optimization_level"@);
    } else if i == 20 {
        reveal_strlit("parser_debug");
        assert(int_names()[20] == "parser_debug"@);
    } else if i == 21 {
        reveal_strlit("write_bytecode");
        assert(int_names()[21] == "write_bytecode"@);
    } else if i == 22 {
        reveal_strlit("verbose");
        assert(int_names()[22] == "verbose"@);
    } else if i == 23 {
        reveal_strlit("quiet");
        assert(int_names()[23] == "quiet"@);
    } else if i == 24 {
        reveal_strlit("user_site_directory");
        assert(int_names()[24] == "user_site_directory"@);
    } else if i == 25 {
        reveal_strlit("configure_c_stdio");
        assert(int_names()[25] == "configure_c_stdio"@);
    } else if i == 26 {
        reveal_strlit("buffered_stdio");
        assert(int_names()[26] == "buffered_stdio"@);
    } else if i == 27 {
        reveal_strlit("use_frozen_modules");
        assert(int_names()[27] == "use_frozen_modules"@);
    } else if i == 28 {
        reveal_strlit("safe_path");
        assert(int_names()[28] == "safe_path"@);
    } else if i == 29 {
        reveal_strlit("int_max_str_digits");
        assert(int_names()[29] == "int_max_str_digits"@);
    } else if i == 30 {
        reveal_strlit("cpu_count");
        assert(int_names()[30] == "cpu_count"@);
    } else if i == 31 {
        reveal_strlit("pathconfig_warnings");
        assert(int_names()[31] == "pathconfig_warnings"@);
    } else if i == 32 {
        reveal_strlit("skip_source_first_line");
        assert(int_names()[32] == "skip_source_first_line"@);
    } else {
        reveal_strlit("module_search_paths_set");
        assert(int_names()[33] == "module_search_paths_set"@);
    }
}

proof fn lemma_pre_mark(i: int)
    requires
        0 <= i < pre_names().len(),
    ensures
        kind_mark(pre_names()[i]) == 0,
{
    if i == 0 {
        reveal_strlit("hash_seed");
        assert(pre_names()[0] == "hash_seed"@);
    } else if i == 1 {
        reveal_strlit("configure_locale");
        assert(pre_names()[1] == "configure_locale"@);
    } else if i == 2 {
        reveal_strlit("coerce_c_locale");
        assert(pre_names()[2] == "coerce_c_locale"@);
    } else if i == 3 {
        reveal_strlit("coerce_c_locale_warn");
        assert(pre_names()[3] == "coerce_c_locale_warn"@);
    } else if i == 4 {
        reveal_strlit("utf8_mode");
        assert(pre_names()[4] == "utf8_mode"@);
    } else if i == 5 {
        reveal_strlit("allocator");
        assert(pre_names()[5] == "allocator"@);
    } else {
        reveal_strlit("gil");
        assert(pre_names()[6] == "gil"@);
    }
}

proof fn lemma_str_mark(i: int)
    requires
        0 <= i < str_names().len(),
    ensures
        kind_mark(str_names()[i]) == 1,
{
    if i == 0 {
        reveal_strlit("dump_refs_file");
        assert(str_names()[0] == "dump_refs_file"@);
    } else if i == 1 {
        reveal_strlit("filesystem_encoding");
        assert(str_names()[1] == "filesystem_encoding"@);
    } else if i == 2 {
        reveal_strlit("filesystem_errors");
        assert(str_names()[2] == "filesystem_errors"@);
    } else if i == 3 {
        reveal_strlit("pycache_prefix");
        assert(str_names()[3] == "pycache_prefix"@);
    } else if i == 4 {
        reveal_strlit("stdio_encoding");
        assert(str_names()[4] == "stdio_encoding"@);
    } else if i == 5 {
        reveal_strlit("stdio_errors");
        assert(str_names()[5] == "stdio_errors"@);
    } else if i == 6 {
        reveal_strlit("check_hash_pycs_mode");
        assert(str_names()[6] == "check_hash_pycs_mode"@);
    } else if i == 7 {
        reveal_strlit("program_name");
        assert(str_names()[7] == "program_name"@);
    } else if i == 8 {
        reveal_strlit("pythonpath_env");
        assert(str_names()[8] == "pythonpath_env"@);
    } else if i == 9 {
        reveal_strlit("home");
        assert(str_names()[9] == "home"@);
    } else if i == 10 {
        reveal_strlit("platlibdir");
        assert(str_names()[10] == "platlibdir"@);
    } else if i == 11 {
        reveal_strlit("stdlib_dir");
        assert(str_names()[11] == "stdlib_dir"@);
    } else if i == 12 {
        reveal_strlit("executable");
        assert(str_names()[12] == "executable"@);
    } else if i == 13 {
        reveal_strlit("base_executable");
        assert(str_names()[13] == "base_executable"@);
    } else if i == 14 {
        reveal_strlit("prefix");
        assert(str_names()[14] == "prefix"@);
    } else if i == 15 {
        reveal_strlit("base_prefix");
        assert(str_names()[15] == "base_prefix"@);
    } else if i == 16 {
        reveal_strlit("exec_prefix");
        assert(str_names()[16] == "exec_prefix"@);
    } else if i == 17 {
        reveal_strlit("base_exec_prefix");
        assert(str_names()[17] == "base_exec_prefix"@);
    } else if i == 18 {
        reveal_strlit("run_command");
        assert(str_names()[18] == "run_command"@);
    } else if i == 19 {
        reveal_strlit("run_module");
        assert(str_names()[19] == "run_module"@);
    } else if i == 20 {
        reveal_strlit("run_filename");
        assert(str_names()[20] == "run_filename"@);
    } else {
        reveal_strlit("sys_path_0");
        assert(str_names()[21] == "sys_path_0"@);
    }
}

proof fn lemma_list_mark(i: int)
    requires
        0 <= i < list_names().len(),
    ensures
        kind_mark(list_names()[i]) == 2,
{
    if i == 0 {
        reveal_strlit("orig_argv");
        assert(list_names()[0] == "orig_argv"@);
    } else if i == 1 {
        reveal_strlit("argv");
        assert(list_names()[1] == "argv"@);
    } else if i == 2 {
        reveal_strlit("xoptions");
        assert(list_names()[2] == "xoptions"@);
    } else if i == 3 {
        reveal_strlit("warnoptions");
        assert(list_names()[3] == "warnoptions"@);
    } else {
        reveal_strlit("module_search_paths");
        assert(list_names()[4] == "module_search_paths"@);
    }
}

/// A name in a table is one of its names.
proof fn lemma_listed(names: Seq<Seq<char>>, name: Seq<char>, i: int)
    requires
        0 <= i <= names.len(),
        index_in(names, name, i) < names.len(),
    ensures
        i <= index_in(names, name, i),
        names[index_in(names, name, i)] == name,
    decreases names.len() - i,
{
    if i < names.len() && names[i] != name {
        lemma_listed(names, name, i + 1);
    }
}

/// An option is of one kind: a name is known if and only if one of the three ways to
/// read an option accepts it, no two of them accept the same name, and none accepts
/// a name that is not known.
pub proof fn law_option_has_one_kind(c: ConfigView, name: Seq<char>)
    ensures
        known(name) <==> (get_int(c, Some(name)) is Ok || get_str(c, Some(name)) is Ok || get_list(
            c,
            Some(name),
        ) is Ok),
        !(get_int(c, Some(name)) is Ok && get_str(c, Some(name)) is Ok),
        !(get_int(c, Some(name)) is Ok && get_list(c, Some(name)) is Ok),
        !(get_str(c, Some(name)) is Ok && get_list(c, Some(name)) is Ok),
{
    lemma_index_range(int_names(), name, 0);
    lemma_index_range(pre_names(), name, 0);
    lemma_index_range(str_names(), name, 0);
    lemma_index_range(list_names(), name, 0);
    if listed(int_names(), name) {
        lemma_listed(int_names(), name, 0);
        lemma_int_mark(index_in(int_names(), name, 0));
    }
    if listed(pre_names(), name) {
        lemma_listed(pre_names(), name, 0);
        lemma_pre_mark(index_in(pre_names(), name, 0));
    }
    if listed(str_names(), name) {
        lemma_listed(str_names(), name, 0);
        lemma_str_mark(index_in(str_names(), name, 0));
    }
    if listed(list_names(), name) {
        lemma_listed(list_names(), name, 0);
        lemma_list_mark(index_in(list_names(), name, 0));
    }
}

/// The state of a configuration keeps its table lengths.
pub open spec fn view_wf(c: ConfigView) -> bool {
    c.ints.len() == INT_COUNT && c.strs.len() == STR_COUNT && c.lists.len() == LIST_COUNT
}

/// An integer option that was set reads back as it was set.
pub proof fn law_int_round_trip(c: ConfigView, name: Seq<char>, value: i64)
    requires
        view_wf(c),
        set_int(c, Some(name), value).1 == 0,
    ensures
        get_int(set_int(c, Some(name), value).0, Some(name)) == Ok::<i64, Seq<char>>(value),
{
    assert((value as u64) as i64 == value) by (bit_vector);
    lemma_index_range(pre_names(), name, 0);
    lemma_index_range(int_names(), name, 0);
}

/// A string option that was set reads back as it was set.
pub proof fn law_str_round_trip(c: ConfigView, name: Seq<char>, value: Seq<char>)
    requires
        view_wf(c),
        set_str(c, Some(name), Some(value)).1 == 0,
    ensures
        get_str(set_str(c, Some(name), Some(value)).0, Some(name)) == Ok::<
            Option<Seq<char>>,
            Seq<char>,
        >(Some(value)),
{
    lemma_index_range(str_names(), name, 0);
}

/// A string list that was set reads back as it was set.
pub proof fn law_list_round_trip(
    c: ConfigView,
    name: Seq<char>,
    length: int,
    items: Seq<Option<Vec<char>>>,
)
    requires
        view_wf(c),
        0 <= length <= items.len(),
        set_list(c, Some(name), length, Some(items)).1 == 0,
    ensures
        get_list(set_list(c, Some(name), length, Some(items)).0, Some(name)) == Ok::<
            Seq<Seq<char>>,
            Seq<char>,
        >(item_texts(items, length)),
{
    lemma_index_range(list_names(), name, 0);
    if length == 0 {
        assert(item_texts(items, 0) =~= Seq::<Seq<char>>::empty());
    }
}

/// Setting a hash seed turns the use of a hash seed on.
pub proof fn law_hash_seed_implies_use(c: ConfigView, value: i64)
    requires
        view_wf(c),
    ensures
        get_int(set_int(c, Some("hash_seed"@), value).0, Some("use_hash_seed"@)) == Ok::<
            i64,
            Seq<char>,
        >(1),
{
    lemma_seed_names();
}

/// Setting the search paths marks them as set.
pub proof fn law_search_paths_marked(
    c: ConfigView,
    length: int,
    items: Seq<Option<Vec<char>>>,
)
    requires
        view_wf(c),
        0 <= length <= items.len(),
        set_list(c, Some("module_search_paths"@), length, Some(items)).1 == 0,
    ensures
        get_int(
            set_list(c, Some("module_search_paths"@), length, Some(items)).0,
            Some("module_search_paths_set"@),
        ) == Ok::<i64, Seq<char>>(1),
{
    lemma_path_list();
    lemma_path_flag_not_pre();
    lemma_path_flag();
}

/// A setter that fails leaves every option as it was.
pub proof fn law_failed_set_changes_no_option(
    c: ConfigView,
    name: Option<Seq<char>>,
    value: i64,
)
    requires
        set_int(c, name, value).1 != 0,
    ensures
        ({
            let d = set_int(c, name, value).0;
            &&& d == (ConfigView { err: d.err, ..c })
            &&& d.err is Some
        }),
{
}

proof fn lemma_index_range(names: Seq<Seq<char>>, name: Seq<char>, i: int)
    requires
        0 <= i <= names.len(),
    ensures
        i <= index_in(names, name, i) <= names.len(),
    decreases names.len() - i,
{
    if i < names.len() && names[i] != name {
        lemma_index_range(names, name, i + 1);
    }
}

proof fn lemma_seed_names()
    ensures
        index_in(pre_names(), "hash_seed"@, 0) == 0,
        index_in(pre_names(), "use_hash_seed"@, 0) == PRE_COUNT,
        index_in(int_names(), "use_hash_seed"@, 0) == USE_HASH_SEED,
{
    reveal_with_fuel(index_in, 9);
    reveal_strlit("use_hash_seed");
    reveal_strlit("hash_seed");
    reveal_strlit("configure_locale");
    reveal_strlit("coerce_c_locale");
    reveal_strlit("coerce_c_locale_warn");
    reveal_strlit("utf8_mode");
    reveal_strlit("allocator");
    reveal_strlit("gil");
    reveal_strlit("isolated");
    reveal_strlit("use_environment");
    reveal_strlit("dev_mode");
    reveal_strlit("install_signal_handlers");
    assert("use_hash_seed"@[0] == 'u');
    assert("use_environment"@[4] != "use_hash_seed"@[4]);
    assert("utf8_mode"@[1] != "use_hash_seed"@[1]);
}

proof fn lemma_path_list()
    ensures
        index_in(list_names(), "module_search_paths"@, 0) == SEARCH_PATHS,
{
    reveal_with_fuel(index_in, 6);
    reveal_strlit("orig_argv");
    assert("orig_argv"@.len() == 9);
    reveal_strlit("argv");
    assert("argv"@.len() == 4);
    reveal_strlit("xoptions");
    assert("xoptions"@.len() == 8);
    reveal_strlit("warnoptions");
    assert("warnoptions"@.len() == 11);
    reveal_strlit("module_search_paths");
    assert("module_search_paths"@.len() == 19);
}

proof fn lemma_path_flag_not_pre()
    ensures
        index_in(pre_names(), "module_search_paths_set"@, 0) == PRE_COUNT,
{
    reveal_with_fuel(index_in, 9);
    reveal_strlit("module_search_paths_set");
    assert("module_search_paths_set"@.len() == 23);
    reveal_strlit("hash_seed");
    assert("hash_seed"@.len() == 9);
    reveal_strlit("configure_locale");
    assert("configure_locale"@.len() == 16);
    reveal_strlit("coerce_c_locale");
    assert("coerce_c_locale"@.len() == 15);
    reveal_strlit("coerce_c_locale_warn");
    assert("coerce_c_locale_warn"@.len() == 20);
    reveal_strlit("utf8_mode");
    assert("utf8_mode"@.len() == 9);
    reveal_strlit("allocator");
    assert("allocator"@.len() == 9);
    reveal_strlit("gil");
    assert("gil"@.len() == 3);
}

proof fn lemma_path_flag()
    ensures
        index_in(int_names(), "module_search_paths_set"@, 0) == SEARCH_PATHS_SET,
{
    reveal_with_fuel(index_in, 36);
    reveal_strlit("isolated");
    assert("isolated"@.len() == 8);
    reveal_strlit("use_environment");
    assert("use_environment"@.len() == 15);
    reveal_strlit("dev_mode");
    assert("dev_mode"@.len() == 8);
    reveal_strlit("install_signal_handlers");
    assert("install_signal_handlers"@.len() == 23);
    reveal_strlit("use_hash_seed");
    assert("use_hash_seed"@.len() == 13);
    reveal_strlit("faulthandler");
    assert("faulthandler"@.len() == 12);
    reveal_strlit("tracemalloc");
    assert("tracemalloc"@.len() == 11);
    reveal_strlit("perf_profiling");
    assert("perf_profiling"@.len() == 14);
    reveal_strlit("import_time");
    assert("import_time"@.len() == 11);
    reveal_strlit("code_debug_ranges");
    assert("code_debug_ranges"@.len() == 17);
    reveal_strlit("show_ref_count");
    assert("show_ref_count"@.len() == 14);
    reveal_strlit("dump_refs");
    assert("dump_refs"@.len() == 9);
    reveal_strlit("malloc_stats");
    assert("malloc_stats"@.len() == 12);
    reveal_strlit("parse_argv");
    assert("parse_argv"@.len() == 10);
    reveal_strlit("site_import");
    assert("site_import"@.len() == 11);
    reveal_strlit("bytes_warning");
    assert("bytes_warning"@.len() == 13);
    reveal_strlit("warn_default_encoding");
    assert("warn_default_encoding"@.len() == 21);
    reveal_strlit("inspect");
    assert("inspect"@.len() == 7);
    reveal_strlit("interactive");
    assert("interactive"@.len() == 11);
    reveal_strlit("optimization_level");
    assert("optimization_level"@.len() == 18);
    reveal_strlit("parser_debug");
    assert("parser_debug"@.len() == 12);
    reveal_strlit("write_bytecode");
    assert("write_bytecode"@.len() == 14);
    reveal_strlit("verbose");
    assert("verbose"@.len() == 7);
    reveal_strlit("quiet");
    assert("quiet"@.len() == 5);
    reveal_strlit("user_site_directory");
    assert("user_site_directory"@.len() == 19);
    reveal_strlit("configure_c_stdio");
    assert("configure_c_stdio"@.len() == 17);
    reveal_strlit("buffered_stdio");
    assert("buffered_stdio"@.len() == 14);
    reveal_strlit("use_frozen_modules");
    assert("use_frozen_modules"@.len() == 18);
    reveal_strlit("safe_path");
    assert("safe_path"@.len() == 9);
    reveal_strlit("int_max_str_digits");
    assert("int_max_str_digits"@.len() == 18);
    reveal_strlit("cpu_count");
    assert("cpu_count"@.len() == 9);
    reveal_strlit("pathconfig_warnings");
    assert("pathconfig_warnings"@.len() == 19);
    reveal_strlit("skip_source_first_line");
    assert("skip_source_first_line"@.len() == 22);
    reveal_strlit("module_search_paths_set");
    assert("module_search_paths_set"@.len() == 23);
    assert("install_signal_handlers"@[0] != "module_search_paths_set"@[0]);
}

// ---------------------------------------------------------------------------
// Initialisation
// ---------------------------------------------------------------------------

/// The kinds of status that an initialisation ends with.
#[derive(Clone, Copy, Debug, PartialEq, Eq, Structural)]
pub enum StatusKind {
    Okay,
    Error,
    Exit,
}

/// The status that an initialisation ends with.
#[derive(Debug)]
pub struct PyStatus {
    pub kind: StatusKind,
    pub err_msg: Option<Vec<char>>,
    pub exitcode: i32,
}

/// Start initialising from a configuration: earlier errors are cleared and
/// the recorded modules are handed out to be added to the builtin table.
pub fn Py_InitializeFromInitConfig(c: &mut PyInitConfig) -> (r: Vec<(Vec<char>, usize)>)
    requires
        old(c).wf(),
    ensures
        final(c).wf(),
        r@ == old(c).modules@,
        final(c)@ == (ConfigView {
            err: None,
            exitcode: None,
            modules: Seq::empty(),
            ..old(c)@
        }),
{
    c.err_msg = None;
    c.exitcode = None;
    let mut taken: Vec<(Vec<char>, usize)> = Vec::new();
    std::mem::swap(&mut taken, &mut c.modules);
    assert(c@.modules =~= Seq::<(Seq<char>, usize)>::empty());
    assert(c@ =~= (ConfigView {
        err: None,
        exitcode: None,
        modules: Seq::empty(),
        ..old(c)@
    }));
    taken
}

/// Record that a module could not be added because the interpreter already
/// runs.
pub fn module_refused(c: &mut PyInitConfig, name: &[char]) -> (r: i32)
    requires
        old(c).wf(),
    ensures
        r == -1,
        final(c).wf(),
        final(c)@ == old(c)@.failed(
            "PyInitConfig_AddModule(\""@ + name@ + "\"): interpreter already initialized"@,
        ),
{
    let mut m: Vec<char> = text::text("PyInitConfig_AddModule(\"");
    push_all(&mut m, name);
    push_str(&mut m, "\"): interpreter already initialized");
    c.set_error(m)
}

/// Some option starts with `gil=`.
pub open spec fn has_gil(x: Seq<Seq<char>>) -> bool {
    exists|i: int| 0 <= i < x.len() && search::occurs_at(#[trigger] x[i], "gil="@, 0)
}

/// The `-X` options with the lock mode among them, where one is chosen and
/// none of the options says so already.
pub open spec fn with_gil(x: Seq<Seq<char>>, gil: Option<i64>) -> Seq<Seq<char>> {
    match gil {
        None => x,
        Some(g) => if has_gil(x) {
            x
        } else {
            x.push("gil="@ + text::dec(g as int))
        },
    }
}

/// Pass a chosen lock mode on as a `-X` option.
pub fn apply_gil(c: &mut PyInitConfig)
    requires
        old(c).wf(),
    ensures
        final(c).wf(),
        final(c)@ == (ConfigView {
            lists: old(c)@.lists.update(
                XOPTIONS as int,
                with_gil(old(c)@.lists[XOPTIONS as int], old(c)@.gil),
            ),
            ..old(c)@
        }),
{
    let ghost goal = ConfigView {
        lists: c@.lists.update(XOPTIONS as int, with_gil(c@.lists[XOPTIONS as int], c@.gil)),
        ..c@
    };
    assert(c@.lists[XOPTIONS as int] == search::texts(c.config.lists@[XOPTIONS as int]@));
    let g: i64 = match c.gil {
        None => {
            assert(c@ =~= goal);
            return;
        },
        Some(g) => g,
    };
    let pat: Vec<char> = text::text("gil=");
    let mut x: Vec<Vec<char>> = copy_list(&c.config.lists[XOPTIONS]);
    let mut i: usize = 0;
    while i < x.len()
        invariant
            i <= x@.len(),
            c.wf(),
            c@ == old(c)@,
            pat@ == "gil="@,
            search::texts(x@) == c@.lists[XOPTIONS as int],
            goal.lists == c@.lists.update(
                XOPTIONS as int,
                with_gil(c@.lists[XOPTIONS as int], c@.gil),
            ),
            goal == (ConfigView { lists: goal.lists, ..c@ }),
            forall|k: int|
                0 <= k < i ==> !search::occurs_at(#[trigger] search::texts(x@)[k], "gil="@, 0),
        decreases x.len() - i,
    {
        assert(search::texts(x@)[i as int] == x@[i as int]@);
        if search::occurs(x[i].as_slice(), pat.as_slice(), 0) {
            assert(has_gil(search::texts(x@)));
            assert(c@.lists =~= goal.lists);
            assert(c@ =~= goal);
            return;
        }
        i = i + 1;
    }
    assert(!has_gil(search::texts(x@)));
    let mut o: Vec<char> = text::text("gil=");
    push_dec(&mut o, g as i128);
    search::push_piece(&mut x, o);
    c.config.lists.set(XOPTIONS, x);
    assert(c@.lists =~= goal.lists);
    assert(c@ =~= goal);
}

/// Record the status that an initialisation ended with. Zero where it is
/// neither an error nor an exit.
pub fn store_status(c: &mut PyInitConfig, status: &PyStatus) -> (r: i32)
    requires
        old(c).wf(),
    ensures
        final(c).wf(),
        match status.kind {
            StatusKind::Exit => r == -1 && final(c)@ == (ConfigView {
                exitcode: Some(status.exitcode),
                ..old(c)@
            }).failed("Python exit"@),
            StatusKind::Error => r == -1 && final(c)@ == old(c)@.failed(
                match status.err_msg {
                    Some(m) => m@,
                    None => "initialization failed"@,
                },
            ),
            StatusKind::Okay => r == 0 && final(c)@ == old(c)@,
        },
{
    match status.kind {
        StatusKind::Exit => {
            c.exitcode = Some(status.exitcode);
            c.set_error(text::text("Python exit"))
        },
        StatusKind::Error => {
            let m: Vec<char> = match &status.err_msg {
                Some(m) => copy_text(m.as_slice()),
                None => text::text("initialization failed"),
            };
            c.set_error(m)
        },
        StatusKind::Okay => 0,
    }
}

// ---------------------------------------------------------------------------
// Reading the running configuration
// ---------------------------------------------------------------------------

/// The `sys` attribute that an option reads through at run time.
pub open spec fn sys_name(option: Seq<char>) -> Option<Seq<char>> {
    if option == "argv"@ {
        Some("argv"@)
    } else if option == "orig_argv"@ {
        Some("orig_argv"@)
    } else if option == "warnoptions"@ {
        Some("warnoptions"@)
    } else if option == "module_search_paths"@ {
        Some("path"@)
    } else if option == "xoptions"@ {
        Some("_xoptions"@)
    } else if option == "executable"@ {
        Some("executable"@)
    } else if option == "base_executable"@ {
        Some("_base_executable"@)
    } else if option == "prefix"@ {
        Some("prefix"@)
    } else if option == "base_prefix"@ {
        Some("base_prefix"@)
    } else if option == "exec_prefix"@ {
        Some("exec_prefix"@)
    } else if option == "base_exec_prefix"@ {
        Some("base_exec_prefix"@)
    } else if option == "platlibdir"@ {
        Some("platlibdir"@)
    } else if option == "pycache_prefix"@ {
        Some("pycache_prefix"@)
    } else if option == "stdlib_dir"@ {
        Some("_stdlib_dir"@)
    } else {
        None
    }
}

/// The `sys` attribute that an option reads through at run time.
pub fn sys_name_for(option: &[char]) -> (r: Option<&'static str>)
    ensures
        match r {
            Some(s) => sys_name(option@) == Some(s@),
            None => sys_name(option@) is None,
        },
{
    if is(option, "argv") {
        Some("argv")
    } else if is(option, "orig_argv") {
        Some("orig_argv")
    } else if is(option, "warnoptions") {
        Some("warnoptions")
    } else if is(option, "module_search_paths") {
        Some("path")
    } else if is(option, "xoptions") {
        Some("_xoptions")
    } else if is(option, "executable") {
        Some("executable")
    } else if is(option, "base_executable") {
        Some("_base_executable")
    } else if is(option, "prefix") {
        Some("prefix")
    } else if is(option, "base_prefix") {
        Some("base_prefix")
    } else if is(option, "exec_prefix") {
        Some("exec_prefix")
    } else if is(option, "base_exec_prefix") {
        Some("base_exec_prefix")
    } else if is(option, "platlibdir") {
        Some("platlibdir")
    } else if is(option, "pycache_prefix") {
        Some("pycache_prefix")
    } else if is(option, "stdlib_dir") {
        Some("_stdlib_dir")
    } else {
        None
    }
}

/// The `sys.flags` attribute behind an integer option, and whether the option
/// is its opposite.
pub open spec fn flag_of(option: Seq<char>) -> Option<(Seq<char>, bool)> {
    if option == "isolated"@ {
        Some(("isolated"@, false))
    } else if option == "use_environment"@ {
        Some(("ignore_environment"@, true))
    } else if option == "dev_mode"@ {
        Some(("dev_mode"@, false))
    } else if option == "optimization_level"@ {
        Some(("optimize"@, false))
    } else if option == "verbose"@ {
        Some(("verbose"@, false))
    } else if option == "quiet"@ {
        Some(("quiet"@, false))
    } else if option == "inspect"@ {
        Some(("inspect"@, false))
    } else if option == "interactive"@ {
        Some(("interactive"@, false))
    } else if option == "parser_debug"@ {
        Some(("debug"@, false))
    } else if option == "write_bytecode"@ {
        Some(("dont_write_bytecode"@, true))
    } else if option == "site_import"@ {
        Some(("no_site"@, true))
    } else if option == "user_site_directory"@ {
        Some(("no_user_site"@, true))
    } else if option == "bytes_warning"@ {
        Some(("bytes_warning"@, false))
    } else if option == "safe_path"@ {
        Some(("safe_path"@, false))
    } else if option == "int_max_str_digits"@ {
        Some(("int_max_str_digits"@, false))
    } else {
        None
    }
}

/// The `sys.flags` attribute behind an integer option, and whether the option
/// is its opposite.
pub fn flag_for(option: &[char]) -> (r: Option<(&'static str, bool)>)
    ensures
        match r {
            Some(p) => flag_of(option@) == Some((p.0@, p.1)),
            None => flag_of(option@) is None,
        },
{
    if is(option, "isolated") {
        Some(("isolated", false))
    } else if is(option, "use_environment") {
        Some(("ignore_environment", true))
    } else if is(option, "dev_mode") {
        Some(("dev_mode", false))
    } else if is(option, "optimization_level") {
        Some(("optimize", false))
    } else if is(option, "verbose") {
        Some(("verbose", false))
    } else if is(option, "quiet") {
        Some(("quiet", false))
    } else if is(option, "inspect") {
        Some(("inspect", false))
    } else if is(option, "interactive") {
        Some(("interactive", false))
    } else if is(option, "parser_debug") {
        Some(("debug", false))
    } else if is(option, "write_bytecode") {
        Some(("dont_write_bytecode", true))
    } else if is(option, "site_import") {
        Some(("no_site", true))
    } else if is(option, "user_site_directory") {
        Some(("no_user_site", true))
    } else if is(option, "bytes_warning") {
        Some(("bytes_warning", false))
    } else if is(option, "safe_path") {
        Some(("safe_path", false))
    } else if is(option, "int_max_str_digits") {
        Some(("int_max_str_digits", false))
    } else {
        None
    }
}

/// The configuration that an embedded process was started with: its integer
/// options as they are read, and its optional texts.
#[derive(Debug)]
pub struct EmbedConfig {
    pub isolated: i64,
    pub use_environment: i64,
    pub site_import: i64,
    pub user_site_directory: i64,
    pub optimization_level: i64,
    pub write_bytecode: i64,
    pub verbose: i64,
    pub quiet: i64,
    pub inspect: i64,
    pub buffered_stdio: i64,
    pub safe_path: i64,
    pub install_signal_handlers: i64,
    pub bytes_warning: i64,
    pub int_max_str_digits: Option<i64>,
    pub faulthandler: i64,
    pub tracemalloc: i64,
    pub skip_source_first_line: i64,
    pub run_command: Option<Vec<char>>,
    pub run_module: Option<Vec<char>>,
    pub run_filename: Option<Vec<char>>,
    pub program_name: Option<Vec<char>>,
    pub home: Option<Vec<char>>,
    pub pythonpath_env: Option<Vec<char>>,
    pub stdio_encoding: Option<Vec<char>>,
    pub stdio_errors: Option<Vec<char>>,
}

/// An integer option of the embedded configuration.
pub open spec fn snapshot(cfg: &EmbedConfig, option: Seq<char>) -> Option<i64> {
    if option == "isolated"@ {
        Some(cfg.isolated)
    } else if option == "use_environment"@ {
        Some(cfg.use_environment)
    } else if option == "site_import"@ {
        Some(cfg.site_import)
    } else if option == "user_site_directory"@ {
        Some(cfg.user_site_directory)
    } else if option == "optimization_level"@ {
        Some(cfg.optimization_level)
    } else if option == "write_bytecode"@ {
        Some(cfg.write_bytecode)
    } else if option == "verbose"@ {
        Some(cfg.verbose)
    } else if option == "quiet"@ {
        Some(cfg.quiet)
    } else if option == "inspect"@ {
        Some(cfg.inspect)
    } else if option == "buffered_stdio"@ {
        Some(cfg.buffered_stdio)
    } else if option == "safe_path"@ {
        Some(cfg.safe_path)
    } else if option == "install_signal_handlers"@ {
        Some(cfg.install_signal_handlers)
    } else if option == "bytes_warning"@ {
        Some(cfg.bytes_warning)
    } else if option == "int_max_str_digits"@ {
        cfg.int_max_str_digits
    } else if option == "faulthandler"@ {
        Some(cfg.faulthandler)
    } else if option == "tracemalloc"@ {
        Some(cfg.tracemalloc)
    } else if option == "skip_source_first_line"@ {
        Some(cfg.skip_source_first_line)
    } else {
        None
    }
}

/// An integer option of the embedded configuration.
pub fn snapshot_int(cfg: &EmbedConfig, option: &[char]) -> (r: Option<i64>)
    ensures
        r == snapshot(cfg, option@),
{
    if is(option, "isolated") {
        Some(cfg.isolated)
    } else if is(option, "use_environment") {
        Some(cfg.use_environment)
    } else if is(option, "site_import") {
        Some(cfg.site_import)
    } else if is(option, "user_site_directory") {
        Some(cfg.user_site_directory)
    } else if is(option, "optimization_level") {
        Some(cfg.optimization_level)
    } else if is(option, "write_bytecode") {
        Some(cfg.write_bytecode)
    } else if is(option, "verbose") {
        Some(cfg.verbose)
    } else if is(option, "quiet") {
        Some(cfg.quiet)
    } else if is(option, "inspect") {
        Some(cfg.inspect)
    } else if is(option, "buffered_stdio") {
        Some(cfg.buffered_stdio)
    } else if is(option, "safe_path") {
        Some(cfg.safe_path)
    } else if is(option, "install_signal_handlers") {
        Some(cfg.install_signal_handlers)
    } else if is(option, "bytes_warning") {
        Some(cfg.bytes_warning)
    } else if is(option, "int_max_str_digits") {
        cfg.int_max_str_digits
    } else if is(option, "faulthandler") {
        Some(cfg.faulthandler)
    } else if is(option, "tracemalloc") {
        Some(cfg.tracemalloc)
    } else if is(option, "skip_source_first_line") {
        Some(cfg.skip_source_first_line)
    } else {
        None
    }
}

/// The integer options whose default is one.
pub open spec fn default_one(option: Seq<char>) -> bool {
    option == "install_signal_handlers"@
        || option == "configure_c_stdio"@
        || option == "buffered_stdio"@
        || option == "code_debug_ranges"@
        || option == "use_frozen_modules"@
        || option == "pathconfig_warnings"@
        || option == "configure_locale"@
        || option == "utf8_mode"@
        || option == "module_search_paths_set"@
        || option == "use_environment"@
        || option == "site_import"@
        || option == "user_site_directory"@
        || option == "write_bytecode"@
}

/// The integer options whose default is zero.
pub open spec fn default_zero(option: Seq<char>) -> bool {
    option == "use_hash_seed"@
        || option == "hash_seed"@
        || option == "faulthandler"@
        || option == "tracemalloc"@
        || option == "perf_profiling"@
        || option == "import_time"@
        || option == "show_ref_count"@
        || option == "dump_refs"@
        || option == "malloc_stats"@
        || option == "parse_argv"@
        || option == "warn_default_encoding"@
        || option == "skip_source_first_line"@
        || option == "coerce_c_locale"@
        || option == "coerce_c_locale_warn"@
        || option == "allocator"@
        || option == "isolated"@
        || option == "dev_mode"@
        || option == "optimization_level"@
        || option == "parser_debug"@
        || option == "verbose"@
        || option == "quiet"@
        || option == "interactive"@
        || option == "inspect"@
        || option == "bytes_warning"@
        || option == "safe_path"@
}

/// The default of an integer option that nothing at run time mirrors.
/// `free_threading` tells whether the global lock is off.
pub open spec fn default_of(option: Seq<char>, free_threading: bool) -> Option<i64> {
    if default_one(option) {
        Some(1)
    } else if default_zero(option) {
        Some(0)
    } else if option == "int_max_str_digits"@ {
        Some(4300)
    } else if option == "cpu_count"@ {
        Some((-1) as i64)
    } else if option == "gil"@ {
        Some(
            if free_threading {
                0
            } else {
                1
            },
        )
    } else {
        None
    }
}

/// The default of an integer option.
pub fn default_int(option: &[char], free_threading: bool) -> (r: Option<i64>)
    ensures
        r == default_of(option@, free_threading),
{
    if is(option, "install_signal_handlers")
        || is(option, "configure_c_stdio")
        || is(option, "buffered_stdio")
        || is(option, "code_debug_ranges")
        || is(option, "use_frozen_modules")
        || is(option, "pathconfig_warnings")
        || is(option, "configure_locale")
        || is(option, "utf8_mode")
        || is(option, "module_search_paths_set")
        || is(option, "use_environment")
        || is(option, "site_import")
        || is(option, "user_site_directory")
        || is(option, "write_bytecode") {
        Some(1)
    } else if is(option, "use_hash_seed")
        || is(option, "hash_seed")
        || is(option, "faulthandler")
        || is(option, "tracemalloc")
        || is(option, "perf_profiling")
        || is(option, "import_time")
        || is(option, "show_ref_count")
        || is(option, "dump_refs")
        || is(option, "malloc_stats")
        || is(option, "parse_argv")
        || is(option, "warn_default_encoding")
        || is(option, "skip_source_first_line")
        || is(option, "coerce_c_locale")
        || is(option, "coerce_c_locale_warn")
        || is(option, "allocator")
        || is(option, "isolated")
        || is(option, "dev_mode")
        || is(option, "optimization_level")
        || is(option, "parser_debug")
        || is(option, "verbose")
        || is(option, "quiet")
        || is(option, "interactive")
        || is(option, "inspect")
        || is(option, "bytes_warning")
        || is(option, "safe_path") {
        Some(0)
    } else if is(option, "int_max_str_digits") {
        Some(4300)
    } else if is(option, "cpu_count") {
        Some(-1)
    } else if is(option, "gil") {
        Some(
            if free_threading {
                0
            } else {
                1
            },
        )
    } else {
        None
    }
}

/// What an attribute of `sys.flags` says: an int or a bool; none where there is no
/// such attribute.
pub fn sys_flag(value: Option<&Object>) -> (r: Option<i64>)
    ensures
        r == (match value {
            Some(Object::Int(i)) => Some(*i),
            Some(Object::Bool(b)) => Some(
                if *b {
                    1i64
                } else {
                    0i64
                },
            ),
            _ => None,
        }),
{
    match value {
        Some(Object::Int(i)) => Some(*i),
        Some(Object::Bool(b)) => Some(
            if *b {
                1
            } else {
                0
            },
        ),
        _ => None,
    }
}

/// An integer option of the running process. `flag` is what `sys.flags` says
/// for the option's attribute.
pub open spec fn running_int(
    option: Seq<char>,
    free_threading: bool,
    cfg: Option<&EmbedConfig>,
    flag: Option<i64>,
) -> Option<i64> {
    let from_cfg = match cfg {
        Some(c) => snapshot(c, option),
        None => None,
    };
    if option == "gil"@ {
        Some(
            if free_threading {
                0
            } else {
                1
            },
        )
    } else if from_cfg is Some {
        from_cfg
    } else if let (Some((_, opposite)), Some(raw)) = (flag_of(option), flag) {
        Some(
            if opposite {
                if raw == 0 {
                    1
                } else {
                    0
                }
            } else {
                raw
            },
        )
    } else {
        default_of(option, free_threading)
    }
}

/// An integer option of the running process: the lock mode is asked for
/// directly, then come the embedded configuration, the live flags and the
/// defaults.
pub fn runtime_int(
    option: &[char],
    free_threading: bool,
    cfg: Option<&EmbedConfig>,
    flag: Option<i64>,
) -> (r: Option<i64>)
    ensures
        r == running_int(option@, free_threading, cfg, flag),
{
    if is(option, "gil") {
        return Some(
            if free_threading {
                0
            } else {
                1
            },
        );
    }
    if let Some(c) = cfg {
        if let Some(v) = snapshot_int(c, option) {
            return Some(v);
        }
    }
    if let Some(p) = flag_for(option) {
        if let Some(raw) = flag {
            return Some(
                if p.1 {
                    if raw == 0 {
                        1
                    } else {
                        0
                    }
                } else {
                    raw
                },
            );
        }
    }
    default_int(option, free_threading)
}

/// A text, or a default where it is unset.
pub open spec fn text_or(t: Option<Seq<char>>, default: Seq<char>) -> Option<Seq<char>> {
    match t {
        Some(s) => Some(s),
        None => Some(default),
    }
}

/// A string option without a live mirror in `sys`: `None` where the option is
/// not among these, and `Some(None)` where it is unset.
pub open spec fn running_str(option: Seq<char>, cfg: Option<&EmbedConfig>) -> Option<
    Option<Seq<char>>,
> {
    if option == "run_command"@ {
        Some(
            match cfg {
                Some(c) => opt(c.run_command),
                None => None,
            },
        )
    } else if option == "run_module"@ {
        Some(
            match cfg {
                Some(c) => opt(c.run_module),
                None => None,
            },
        )
    } else if option == "run_filename"@ {
        Some(
            match cfg {
                Some(c) => opt(c.run_filename),
                None => None,
            },
        )
    } else if option == "program_name"@ {
        Some(
            match cfg {
                Some(c) => opt(c.program_name),
                None => None,
            },
        )
    } else if option == "home"@ {
        Some(
            match cfg {
                Some(c) => opt(c.home),
                None => None,
            },
        )
    } else if option == "pythonpath_env"@ {
        Some(
            match cfg {
                Some(c) => opt(c.pythonpath_env),
                None => None,
            },
        )
    } else if option == "stdio_encoding"@ {
        Some(
            text_or(
                match cfg {
                    Some(c) => opt(c.stdio_encoding),
                    None => None,
                },
                "utf-8"@,
            ),
        )
    } else if option == "stdio_errors"@ {
        Some(
            text_or(
                match cfg {
                    Some(c) => opt(c.stdio_errors),
                    None => None,
                },
                "strict"@,
            ),
        )
    } else if option == "filesystem_encoding"@ {
        Some(Some("utf-8"@))
    } else if option == "filesystem_errors"@ {
        Some(Some("surrogateescape"@))
    } else if option == "check_hash_pycs_mode"@ {
        Some(Some("default"@))
    } else if option == "dump_refs_file"@ || option == "sys_path_0"@ {
        Some(None)
    } else {
        None
    }
}

fn opt_copy(t: &Option<Vec<char>>) -> (r: Option<Vec<char>>)
    ensures
        opt(r) == opt(*t),
{
    match t {
        Some(s) => Some(copy_text(s.as_slice())),
        None => None,
    }
}

fn or_text(t: Option<Vec<char>>, default: &str) -> (r: Option<Vec<char>>)
    ensures
        opt(r) == text_or(opt(t), default@),
{
    match t {
        Some(s) => Some(s),
        None => Some(text::text(default)),
    }
}

/// The content of a doubly optional text.
pub open spec fn opt2(t: Option<Option<Vec<char>>>) -> Option<Option<Seq<char>>> {
    match t {
        Some(s) => Some(opt(s)),
        None => None,
    }
}

/// A string option without a live mirror in `sys`, on a POSIX system.
pub fn runtime_str(option: &[char], cfg: Option<&EmbedConfig>) -> (r: Option<Option<Vec<char>>>)
    ensures
        opt2(r) == running_str(option@, cfg),
{
    if is(option, "run_command") {
        return Some(
            match cfg {
                Some(c) => opt_copy(&c.run_command),
                None => None,
            },
        );
    }
    if is(option, "run_module") {
        return Some(
            match cfg {
                Some(c) => opt_copy(&c.run_module),
                None => None,
            },
        );
    }
    if is(option, "run_filename") {
        return Some(
            match cfg {
                Some(c) => opt_copy(&c.run_filename),
                None => None,
            },
        );
    }
    if is(option, "program_name") {
        return Some(
            match cfg {
                Some(c) => opt_copy(&c.program_name),
                None => None,
            },
        );
    }
    if is(option, "home") {
        return Some(
            match cfg {
                Some(c) => opt_copy(&c.home),
                None => None,
            },
        );
    }
    if is(option, "pythonpath_env") {
        return Some(
            match cfg {
                Some(c) => opt_copy(&c.pythonpath_env),
                None => None,
            },
        );
    }
    if is(option, "stdio_encoding") {
        return Some(
            or_text(
                match cfg {
                    Some(c) => opt_copy(&c.stdio_encoding),
                    None => None,
                },
                "utf-8",
            ),
        );
    }
    if is(option, "stdio_errors") {
        return Some(
            or_text(
                match cfg {
                    Some(c) => opt_copy(&c.stdio_errors),
                    None => None,
                },
                "strict",
            ),
        );
    }
    if is(option, "filesystem_encoding") {
        return Some(Some(text::text("utf-8")));
    }
    if is(option, "filesystem_errors") {
        return Some(Some(text::text("surrogateescape")));
    }
    if is(option, "check_hash_pycs_mode") {
        return Some(Some(text::text("default")));
    }
    if is(option, "dump_refs_file") || is(option, "sys_path_0") {
        return Some(None);
    }
    None
}

/// A value of the running configuration.
#[derive(Debug)]
pub enum ConfigValue {
    /// The live `sys` attribute.
    Live(usize),
    Int(i64),
    Text(Vec<char>),
    NoneValue,
    EmptyList,
}

/// The mathematical content of a [`ConfigValue`].
#[verifier::ext_equal]
pub enum ConfigValueView {
    Live(usize),
    Int(i64),
    Text(Seq<char>),
    NoneValue,
    EmptyList,
}

impl View for ConfigValue {
    type V = ConfigValueView;

    open spec fn view(&self) -> ConfigValueView {
        match self {
            ConfigValue::Live(p) => ConfigValueView::Live(*p),
            ConfigValue::Int(v) => ConfigValueView::Int(*v),
            ConfigValue::Text(t) => ConfigValueView::Text(t@),
            ConfigValue::NoneValue => ConfigValueView::NoneValue,
            ConfigValue::EmptyList => ConfigValueView::EmptyList,
        }
    }
}

/// Read an option of the running process. `live` is the `sys` attribute of the
/// option (zero where there is none), `flag` what `sys.flags` says.
pub fn PyConfig_Get(
    name: Option<&[char]>,
    live: usize,
    free_threading: bool,
    cfg: Option<&EmbedConfig>,
    flag: Option<i64>,
) -> (r: Result<ConfigValue, Failure>)
    ensures
        match name {
            None => errors::raises(r, ExcKind::ValueError, "PyConfig_Get: NULL option name"@),
            Some(n) => if !known(n@) {
                errors::raises(r, ExcKind::ValueError, unknown_message(n@))
            } else if sys_name(n@) is Some && live != 0 {
                r is Ok && r->Ok_0@ == ConfigValueView::Live(live)
            } else {
                match running_int(n@, free_threading, cfg, flag) {
                    Some(v) => r is Ok && r->Ok_0@ == ConfigValueView::Int(v),
                    None => match running_str(n@, cfg) {
                        Some(Some(s)) => r is Ok && r->Ok_0@ == ConfigValueView::Text(s),
                        Some(None) => r is Ok && r->Ok_0@ == ConfigValueView::NoneValue,
                        None => if listed(list_names(), n@) {
                            r is Ok && r->Ok_0@ == ConfigValueView::EmptyList
                        } else {
                            errors::raises(
                                r,
                                ExcKind::ValueError,
                                "option \""@ + n@ + "\" is not available"@,
                            )
                        },
                    },
                }
            },
        },
{
    let n = match name {
        None => {
            return Err(raise_str(ExcKind::ValueError, "PyConfig_Get: NULL option name"));
        },
        Some(n) => n,
    };
    if !is_known_option(n) {
        return Err(raise(ExcKind::ValueError, unknown(n)));
    }
    if sys_name_for(n).is_some() && live != 0 {
        return Ok(ConfigValue::Live(live));
    }
    if let Some(v) = runtime_int(n, free_threading, cfg, flag) {
        return Ok(ConfigValue::Int(v));
    }
    if let Some(v) = runtime_str(n, cfg) {
        return match v {
            Some(s) => Ok(ConfigValue::Text(s)),
            None => Ok(ConfigValue::NoneValue),
        };
    }
    if list_slot(n).is_some() {
        return Ok(ConfigValue::EmptyList);
    }
    Err(unavailable(n))
}

fn unavailable(n: &[char]) -> (r: Failure)
    ensures
        r@ == errors::FailureView::Raised(
            ExcKind::ValueError,
            "option \""@ + n@ + "\" is not available"@,
        ),
{
    let mut m: Vec<char> = text::text("option \"");
    push_all(&mut m, n);
    push_str(&mut m, "\" is not available");
    raise(ExcKind::ValueError, m)
}

/// Read an integer option of the running process as a C int.
pub fn PyConfig_GetInt(
    name: Option<&[char]>,
    free_threading: bool,
    cfg: Option<&EmbedConfig>,
    flag: Option<i64>,
) -> (r: Result<i32, Failure>)
    ensures
        match name {
            None => errors::raises(r, ExcKind::ValueError, "PyConfig_GetInt: NULL option name"@),
            Some(n) => if !known(n@) {
                errors::raises(r, ExcKind::ValueError, unknown_message(n@))
            } else if !is_int_option(n@) {
                errors::raises(r, ExcKind::TypeError, "option \""@ + n@ + "\" is not an int"@)
            } else {
                match running_int(n@, free_threading, cfg, flag) {
                    Some(v) => r is Ok && r->Ok_0 == v as i32,
                    None => errors::raises(
                        r,
                        ExcKind::ValueError,
                        "option \""@ + n@ + "\" is not available"@,
                    ),
                }
            },
        },
{
    let n = match name {
        None => {
            return Err(raise_str(ExcKind::ValueError, "PyConfig_GetInt: NULL option name"));
        },
        Some(n) => n,
    };
    if !is_known_option(n) {
        return Err(raise(ExcKind::ValueError, unknown(n)));
    }
    if int_slot(n).is_none() && pre_slot(n).is_none() {
        let mut m: Vec<char> = text::text("option \"");
        push_all(&mut m, n);
        push_str(&mut m, "\" is not an int");
        return Err(raise(ExcKind::TypeError, m));
    }
    match runtime_int(n, free_threading, cfg, flag) {
        Some(v) => Ok(#[verifier::truncate] (v as i32)),
        None => Err(unavailable(n)),
    }
}

/// The names of all options, as the elements of a frozen set.
pub fn PyConfig_Names() -> (r: Vec<Vec<char>>)
    ensures
        search::texts(r@) == int_names() + pre_names() + str_names() + list_names(),
{
    let mut out: Vec<Vec<char>> = Vec::new();
    let mut k: usize = 0;
    assert(search::texts(out@) =~= int_names().subrange(0, 0));
    while k < INT_COUNT
        invariant
            k <= INT_COUNT,
            int_names().len() == INT_COUNT,
            search::texts(out@) == int_names().subrange(0, k as int),
        decreases INT_COUNT - k,
    {
        search::push_piece(&mut out, text::text(int_name(k)));
        k = k + 1;
        assert(search::texts(out@) =~= int_names().subrange(0, k as int));
    }
    assert(search::texts(out@) =~= int_names() + pre_names().subrange(0, 0));
    k = 0;
    while k < PRE_COUNT
        invariant
            k <= PRE_COUNT,
            pre_names().len() == PRE_COUNT,
            search::texts(out@) == int_names() + pre_names().subrange(0, k as int),
        decreases PRE_COUNT - k,
    {
        search::push_piece(&mut out, text::text(pre_name(k)));
        k = k + 1;
        assert(search::texts(out@) =~= int_names() + pre_names().subrange(0, k as int));
    }
    let ghost a = int_names() + pre_names();
    assert(search::texts(out@) =~= a + str_names().subrange(0, 0));
    k = 0;
    while k < STR_COUNT
        invariant
            k <= STR_COUNT,
            str_names().len() == STR_COUNT,
            search::texts(out@) == a + str_names().subrange(0, k as int),
        decreases STR_COUNT - k,
    {
        search::push_piece(&mut out, text::text(str_name(k)));
        k = k + 1;
        assert(search::texts(out@) =~= a + str_names().subrange(0, k as int));
    }
    let ghost b = a + str_names();
    assert(search::texts(out@) =~= b + list_names().subrange(0, 0));
    k = 0;
    while k < LIST_COUNT
        invariant
            k <= LIST_COUNT,
            list_names().len() == LIST_COUNT,
            search::texts(out@) == b + list_names().subrange(0, k as int),
        decreases LIST_COUNT - k,
    {
        search::push_piece(&mut out, text::text(list_name(k)));
        k = k + 1;
        assert(search::texts(out@) =~= b + list_names().subrange(0, k as int));
    }
    assert(search::texts(out@) =~= int_names() + pre_names() + str_names() + list_names());
    out
}

} // verus!
