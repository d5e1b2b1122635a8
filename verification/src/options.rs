//! The options of a running interpreter: where each of them is read from.

use vstd::prelude::*;
use crate::pep741;
use crate::pep741::{ConfigView, EmbedConfig};
use crate::search;
use crate::text;

verus! {

/// An option that the embedded process was started with is read from its
/// configuration, under its own name.
pub proof fn law_options_of_the_process(cfg: &EmbedConfig)
    ensures
        pep741::snapshot(cfg, "isolated"@) == Some(cfg.isolated),
        pep741::snapshot(cfg, "use_environment"@) == Some(cfg.use_environment),
        pep741::snapshot(cfg, "site_import"@) == Some(cfg.site_import),
        pep741::snapshot(cfg, "user_site_directory"@) == Some(cfg.user_site_directory),
        pep741::snapshot(cfg, "optimization_level"@) == Some(cfg.optimization_level),
        pep741::snapshot(cfg, "write_bytecode"@) == Some(cfg.write_bytecode),
        pep741::snapshot(cfg, "verbose"@) == Some(cfg.verbose),
        pep741::snapshot(cfg, "quiet"@) == Some(cfg.quiet),
        pep741::snapshot(cfg, "inspect"@) == Some(cfg.inspect),
        pep741::snapshot(cfg, "buffered_stdio"@) == Some(cfg.buffered_stdio),
        pep741::snapshot(cfg, "safe_path"@) == Some(cfg.safe_path),
        pep741::snapshot(cfg, "install_signal_handlers"@) == Some(cfg.install_signal_handlers),
        pep741::snapshot(cfg, "bytes_warning"@) == Some(cfg.bytes_warning),
        pep741::snapshot(cfg, "int_max_str_digits"@) == cfg.int_max_str_digits,
        pep741::snapshot(cfg, "faulthandler"@) == Some(cfg.faulthandler),
        pep741::snapshot(cfg, "tracemalloc"@) == Some(cfg.tracemalloc),
        pep741::snapshot(cfg, "skip_source_first_line"@) == Some(cfg.skip_source_first_line),
{
    reveal_strlit("isolated");
    assert("isolated"@.len() == 8);
    reveal_strlit("use_environment");
    assert("use_environment"@.len() == 15);
    reveal_strlit("site_import");
    assert("site_import"@.len() == 11);
    reveal_strlit("user_site_directory");
    assert("user_site_directory"@.len() == 19);
    reveal_strlit("optimization_level");
    assert("optimization_level"@.len() == 18);
    reveal_strlit("write_bytecode");
    assert("write_bytecode"@.len() == 14);
    reveal_strlit("verbose");
    assert("verbose"@.len() == 7);
    reveal_strlit("quiet");
    assert("quiet"@.len() == 5);
    reveal_strlit("inspect");
    assert("inspect"@.len() == 7);
    reveal_strlit("buffered_stdio");
    assert("buffered_stdio"@.len() == 14);
    reveal_strlit("safe_path");
    assert("safe_path"@.len() == 9);
    reveal_strlit("install_signal_handlers");
    assert("install_signal_handlers"@.len() == 23);
    reveal_strlit("bytes_warning");
    assert("bytes_warning"@.len() == 13);
    reveal_strlit("int_max_str_digits");
    assert("int_max_str_digits"@.len() == 18);
    reveal_strlit("faulthandler");
    assert("faulthandler"@.len() == 12);
    reveal_strlit("tracemalloc");
    assert("tracemalloc"@.len() == 11);
    reveal_strlit("skip_source_first_line");
    assert("skip_source_first_line"@.len() == 22);
    assert("verbose"@[0] != "inspect"@[0]);
    assert("write_bytecode"@[0] != "buffered_stdio"@[0]);
    assert("optimization_level"@[0] != "int_max_str_digits"@[0]);
    assert("site_import"@[0] != "tracemalloc"@[0]);
}

/// An option that is a flag of the interpreter is read from `sys.flags`. The flags
/// that forbid what their option allows are read the other way round.
pub proof fn law_options_among_the_flags()
    ensures
        pep741::flag_of("isolated"@) == Some(("isolated"@, false)),
        pep741::flag_of("use_environment"@) == Some(("ignore_environment"@, true)),
        pep741::flag_of("dev_mode"@) == Some(("dev_mode"@, false)),
        pep741::flag_of("optimization_level"@) == Some(("optimize"@, false)),
        pep741::flag_of("verbose"@) == Some(("verbose"@, false)),
        pep741::flag_of("quiet"@) == Some(("quiet"@, false)),
        pep741::flag_of("inspect"@) == Some(("inspect"@, false)),
        pep741::flag_of("interactive"@) == Some(("interactive"@, false)),
        pep741::flag_of("parser_debug"@) == Some(("debug"@, false)),
        pep741::flag_of("write_bytecode"@) == Some(("dont_write_bytecode"@, true)),
        pep741::flag_of("site_import"@) == Some(("no_site"@, true)),
        pep741::flag_of("user_site_directory"@) == Some(("no_user_site"@, true)),
        pep741::flag_of("bytes_warning"@) == Some(("bytes_warning"@, false)),
        pep741::flag_of("safe_path"@) == Some(("safe_path"@, false)),
        pep741::flag_of("int_max_str_digits"@) == Some(("int_max_str_digits"@, false)),
{
    reveal_strlit("isolated");
    assert("isolated"@.len() == 8);
    reveal_strlit("use_environment");
    assert("use_environment"@.len() == 15);
    reveal_strlit("dev_mode");
    assert("dev_mode"@.len() == 8);
    reveal_strlit("optimization_level");
    assert("optimization_level"@.len() == 18);
    reveal_strlit("verbose");
    assert("verbose"@.len() == 7);
    reveal_strlit("quiet");
    assert("quiet"@.len() == 5);
    reveal_strlit("inspect");
    assert("inspect"@.len() == 7);
    reveal_strlit("interactive");
    assert("interactive"@.len() == 11);
    reveal_strlit("parser_debug");
    assert("parser_debug"@.len() == 12);
    reveal_strlit("write_bytecode");
    assert("write_bytecode"@.len() == 14);
    reveal_strlit("site_import");
    assert("site_import"@.len() == 11);
    reveal_strlit("user_site_directory");
    assert("user_site_directory"@.len() == 19);
    reveal_strlit("bytes_warning");
    assert("bytes_warning"@.len() == 13);
    reveal_strlit("safe_path");
    assert("safe_path"@.len() == 9);
    reveal_strlit("int_max_str_digits");
    assert("int_max_str_digits"@.len() == 18);
    assert("isolated"@[0] != "dev_mode"@[0]);
    assert("verbose"@[0] != "inspect"@[0]);
    assert("interactive"@[0] != "site_import"@[0]);
    assert("optimization_level"@[0] != "int_max_str_digits"@[0]);
}

/// An option that lives in `sys` is read from there, under the name that it has there.
pub proof fn law_options_in_sys()
    ensures
        pep741::sys_name("argv"@) == Some("argv"@),
        pep741::sys_name("orig_argv"@) == Some("orig_argv"@),
        pep741::sys_name("warnoptions"@) == Some("warnoptions"@),
        pep741::sys_name("module_search_paths"@) == Some("path"@),
        pep741::sys_name("xoptions"@) == Some("_xoptions"@),
        pep741::sys_name("executable"@) == Some("executable"@),
        pep741::sys_name("base_executable"@) == Some("_base_executable"@),
        pep741::sys_name("prefix"@) == Some("prefix"@),
        pep741::sys_name("base_prefix"@) == Some("base_prefix"@),
        pep741::sys_name("exec_prefix"@) == Some("exec_prefix"@),
        pep741::sys_name("base_exec_prefix"@) == Some("base_exec_prefix"@),
        pep741::sys_name("platlibdir"@) == Some("platlibdir"@),
        pep741::sys_name("pycache_prefix"@) == Some("pycache_prefix"@),
        pep741::sys_name("stdlib_dir"@) == Some("_stdlib_dir"@),
{
    reveal_strlit("argv");
    assert("argv"@.len() == 4);
    reveal_strlit("orig_argv");
    assert("orig_argv"@.len() == 9);
    reveal_strlit("warnoptions");
    assert("warnoptions"@.len() == 11);
    reveal_strlit("module_search_paths");
    assert("module_search_paths"@.len() == 19);
    reveal_strlit("xoptions");
    assert("xoptions"@.len() == 8);
    reveal_strlit("executable");
    assert("executable"@.len() == 10);
    reveal_strlit("base_executable");
    assert("base_executable"@.len() == 15);
    reveal_strlit("prefix");
    assert("prefix"@.len() == 6);
    reveal_strlit("base_prefix");
    assert("base_prefix"@.len() == 11);
    reveal_strlit("exec_prefix");
    assert("exec_prefix"@.len() == 11);
    reveal_strlit("base_exec_prefix");
    assert("base_exec_prefix"@.len() == 16);
    reveal_strlit("platlibdir");
    assert("platlibdir"@.len() == 10);
    reveal_strlit("pycache_prefix");
    assert("pycache_prefix"@.len() == 14);
    reveal_strlit("stdlib_dir");
    assert("stdlib_dir"@.len() == 10);
    assert("warnoptions"@[0] != "base_prefix"@[0]);
    assert("warnoptions"@[0] != "exec_prefix"@[0]);
    assert("base_prefix"@[0] != "exec_prefix"@[0]);
    assert("executable"@[0] != "platlibdir"@[0]);
    assert("executable"@[0] != "stdlib_dir"@[0]);
    assert("platlibdir"@[0] != "stdlib_dir"@[0]);
}

/// The texts that an embedded process was started with are read from its
/// configuration, under their own names. The encodings have defaults.
pub proof fn law_texts_of_the_process(cfg: &EmbedConfig)
    ensures
        pep741::running_str("run_command"@, Some(cfg)) == Some(pep741::opt(cfg.run_command)),
        pep741::running_str("run_command"@, None) == Some(None::<Seq<char>>),
        pep741::running_str("run_module"@, Some(cfg)) == Some(pep741::opt(cfg.run_module)),
        pep741::running_str("run_module"@, None) == Some(None::<Seq<char>>),
        pep741::running_str("run_filename"@, Some(cfg)) == Some(pep741::opt(cfg.run_filename)),
        pep741::running_str("run_filename"@, None) == Some(None::<Seq<char>>),
        pep741::running_str("program_name"@, Some(cfg)) == Some(pep741::opt(cfg.program_name)),
        pep741::running_str("program_name"@, None) == Some(None::<Seq<char>>),
        pep741::running_str("home"@, Some(cfg)) == Some(pep741::opt(cfg.home)),
        pep741::running_str("home"@, None) == Some(None::<Seq<char>>),
        pep741::running_str("pythonpath_env"@, Some(cfg)) == Some(pep741::opt(cfg.pythonpath_env)),
        pep741::running_str("pythonpath_env"@, None) == Some(None::<Seq<char>>),
        pep741::running_str("stdio_encoding"@, Some(cfg)) == Some(
            match cfg.stdio_encoding {
                Some(s) => Some(s@),
                None => Some("utf-8"@),
            },
        ),
        pep741::running_str("stdio_encoding"@, None) == Some(Some("utf-8"@)),
        pep741::running_str("stdio_errors"@, Some(cfg)) == Some(
            match cfg.stdio_errors {
                Some(s) => Some(s@),
                None => Some("strict"@),
            },
        ),
        pep741::running_str("stdio_errors"@, None) == Some(Some("strict"@)),
        pep741::running_str("filesystem_encoding"@, Some(cfg)) == Some(Some("utf-8"@)),
        pep741::running_str("filesystem_errors"@, Some(cfg)) == Some(Some("surrogateescape"@)),
        pep741::running_str("check_hash_pycs_mode"@, Some(cfg)) == Some(Some("default"@)),
        pep741::running_str("dump_refs_file"@, Some(cfg)) == Some(None::<Seq<char>>),
        pep741::running_str("sys_path_0"@, Some(cfg)) == Some(None::<Seq<char>>),
{
    reveal_strlit("run_command");
    assert("run_command"@.len() == 11);
    reveal_strlit("run_module");
    assert("run_module"@.len() == 10);
    reveal_strlit("run_filename");
    assert("run_filename"@.len() == 12);
    reveal_strlit("program_name");
    assert("program_name"@.len() == 12);
    reveal_strlit("home");
    assert("home"@.len() == 4);
    reveal_strlit("pythonpath_env");
    assert("pythonpath_env"@.len() == 14);
    reveal_strlit("stdio_encoding");
    assert("stdio_encoding"@.len() == 14);
    reveal_strlit("stdio_errors");
    assert("stdio_errors"@.len() == 12);
    reveal_strlit("filesystem_encoding");
    assert("filesystem_encoding"@.len() == 19);
    reveal_strlit("filesystem_errors");
    assert("filesystem_errors"@.len() == 17);
    reveal_strlit("check_hash_pycs_mode");
    assert("check_hash_pycs_mode"@.len() == 20);
    reveal_strlit("dump_refs_file");
    assert("dump_refs_file"@.len() == 14);
    reveal_strlit("sys_path_0");
    assert("sys_path_0"@.len() == 10);
    assert("run_filename"@[0] != "program_name"@[0]);
    assert("pythonpath_env"@[0] != "stdio_encoding"@[0]);
    assert("run_filename"@[0] != "stdio_errors"@[0]);
    assert("program_name"@[0] != "stdio_errors"@[0]);
    assert("pythonpath_env"@[0] != "dump_refs_file"@[0]);
    assert("stdio_encoding"@[0] != "dump_refs_file"@[0]);
    assert("run_module"@[0] != "sys_path_0"@[0]);
}

/// What an option says where nothing else says it.
pub proof fn law_defaults(free_threading: bool)
    ensures
        pep741::default_of("install_signal_handlers"@, free_threading) == Some(1i64),
        pep741::default_of("configure_c_stdio"@, free_threading) == Some(1i64),
        pep741::default_of("buffered_stdio"@, free_threading) == Some(1i64),
        pep741::default_of("code_debug_ranges"@, free_threading) == Some(1i64),
        pep741::default_of("use_frozen_modules"@, free_threading) == Some(1i64),
        pep741::default_of("pathconfig_warnings"@, free_threading) == Some(1i64),
        pep741::default_of("configure_locale"@, free_threading) == Some(1i64),
        pep741::default_of("utf8_mode"@, free_threading) == Some(1i64),
        pep741::default_of("module_search_paths_set"@, free_threading) == Some(1i64),
        pep741::default_of("use_environment"@, free_threading) == Some(1i64),
        pep741::default_of("site_import"@, free_threading) == Some(1i64),
        pep741::default_of("user_site_directory"@, free_threading) == Some(1i64),
        pep741::default_of("write_bytecode"@, free_threading) == Some(1i64),
        pep741::default_of("use_hash_seed"@, free_threading) == Some(0i64),
        pep741::default_of("hash_seed"@, free_threading) == Some(0i64),
        pep741::default_of("faulthandler"@, free_threading) == Some(0i64),
        pep741::default_of("tracemalloc"@, free_threading) == Some(0i64),
        pep741::default_of("perf_profiling"@, free_threading) == Some(0i64),
        pep741::default_of("import_time"@, free_threading) == Some(0i64),
        pep741::default_of("show_ref_count"@, free_threading) == Some(0i64),
        pep741::default_of("dump_refs"@, free_threading) == Some(0i64),
        pep741::default_of("malloc_stats"@, free_threading) == Some(0i64),
        pep741::default_of("parse_argv"@, free_threading) == Some(0i64),
        pep741::default_of("warn_default_encoding"@, free_threading) == Some(0i64),
        pep741::default_of("skip_source_first_line"@, free_threading) == Some(0i64),
        pep741::default_of("coerce_c_locale"@, free_threading) == Some(0i64),
        pep741::default_of("coerce_c_locale_warn"@, free_threading) == Some(0i64),
        pep741::default_of("allocator"@, free_threading) == Some(0i64),
        pep741::default_of("isolated"@, free_threading) == Some(0i64),
        pep741::default_of("dev_mode"@, free_threading) == Some(0i64),
        pep741::default_of("optimization_level"@, free_threading) == Some(0i64),
        pep741::default_of("parser_debug"@, free_threading) == Some(0i64),
        pep741::default_of("verbose"@, free_threading) == Some(0i64),
        pep741::default_of("quiet"@, free_threading) == Some(0i64),
        pep741::default_of("interactive"@, free_threading) == Some(0i64),
        pep741::default_of("inspect"@, free_threading) == Some(0i64),
        pep741::default_of("bytes_warning"@, free_threading) == Some(0i64),
        pep741::default_of("safe_path"@, free_threading) == Some(0i64),
        pep741::default_of("int_max_str_digits"@, free_threading) == Some(4300i64),
        pep741::default_of("cpu_count"@, free_threading) == Some((-1) as i64),
        pep741::default_of("gil"@, true) == Some(0i64),
        pep741::default_of("gil"@, false) == Some(1i64),
{
    reveal_strlit("install_signal_handlers");
    assert("install_signal_handlers"@.len() == 23);
    reveal_strlit("configure_c_stdio");
    assert("configure_c_stdio"@.len() == 17);
    reveal_strlit("buffered_stdio");
    assert("buffered_stdio"@.len() == 14);
    reveal_strlit("code_debug_ranges");
    assert("code_debug_ranges"@.len() == 17);
    reveal_strlit("use_frozen_modules");
    assert("use_frozen_modules"@.len() == 18);
    reveal_strlit("pathconfig_warnings");
    assert("pathconfig_warnings"@.len() == 19);
    reveal_strlit("configure_locale");
    assert("configure_locale"@.len() == 16);
    reveal_strlit("utf8_mode");
    assert("utf8_mode"@.len() == 9);
    reveal_strlit("module_search_paths_set");
    assert("module_search_paths_set"@.len() == 23);
    reveal_strlit("use_environment");
    assert("use_environment"@.len() == 15);
    reveal_strlit("site_import");
    assert("site_import"@.len() == 11);
    reveal_strlit("user_site_directory");
    assert("user_site_directory"@.len() == 19);
    reveal_strlit("write_bytecode");
    assert("write_bytecode"@.len() == 14);
    reveal_strlit("use_hash_seed");
    assert("use_hash_seed"@.len() == 13);
    reveal_strlit("hash_seed");
    assert("hash_seed"@.len() == 9);
    reveal_strlit("faulthandler");
    assert("faulthandler"@.len() == 12);
    reveal_strlit("tracemalloc");
    assert("tracemalloc"@.len() == 11);
    reveal_strlit("perf_profiling");
    assert("perf_profiling"@.len() == 14);
    reveal_strlit("import_time");
    assert("import_time"@.len() == 11);
    reveal_strlit("show_ref_count");
    assert("show_ref_count"@.len() == 14);
    reveal_strlit("dump_refs");
    assert("dump_refs"@.len() == 9);
    reveal_strlit("malloc_stats");
    assert("malloc_stats"@.len() == 12);
    reveal_strlit("parse_argv");
    assert("parse_argv"@.len() == 10);
    reveal_strlit("warn_default_encoding");
    assert("warn_default_encoding"@.len() == 21);
    reveal_strlit("skip_source_first_line");
    assert("skip_source_first_line"@.len() == 22);
    reveal_strlit("coerce_c_locale");
    assert("coerce_c_locale"@.len() == 15);
    reveal_strlit("coerce_c_locale_warn");
    assert("coerce_c_locale_warn"@.len() == 20);
    reveal_strlit("allocator");
    assert("allocator"@.len() == 9);
    reveal_strlit("isolated");
    assert("isolated"@.len() == 8);
    reveal_strlit("dev_mode");
    assert("dev_mode"@.len() == 8);
    reveal_strlit("optimization_level");
    assert("optimization_level"@.len() == 18);
    reveal_strlit("parser_debug");
    assert("parser_debug"@.len() == 12);
    reveal_strlit("verbose");
    assert("verbose"@.len() == 7);
    reveal_strlit("quiet");
    assert("quiet"@.len() == 5);
    reveal_strlit("interactive");
    assert("interactive"@.len() == 11);
    reveal_strlit("inspect");
    assert("inspect"@.len() == 7);
    reveal_strlit("bytes_warning");
    assert("bytes_warning"@.len() == 13);
    reveal_strlit("safe_path");
    assert("safe_path"@.len() == 9);
    reveal_strlit("int_max_str_digits");
    assert("int_max_str_digits"@.len() == 18);
    reveal_strlit("cpu_count");
    assert("cpu_count"@.len() == 9);
    reveal_strlit("gil");
    assert("gil"@.len() == 3);
    assert("configure_c_stdio"@[2] != "code_debug_ranges"@[2]);
    assert("install_signal_handlers"@[0] != "module_search_paths_set"@[0]);
    assert("pathconfig_warnings"@[0] != "user_site_directory"@[0]);
    assert("buffered_stdio"@[0] != "write_bytecode"@[0]);
    assert("utf8_mode"@[0] != "hash_seed"@[0]);
    assert("site_import"@[0] != "tracemalloc"@[0]);
    assert("buffered_stdio"@[0] != "perf_profiling"@[0]);
    assert("write_bytecode"@[0] != "perf_profiling"@[0]);
    assert("site_import"@[0] != "import_time"@[0]);
    assert("tracemalloc"@[0] != "import_time"@[0]);
    assert("buffered_stdio"@[0] != "show_ref_count"@[0]);
    assert("write_bytecode"@[0] != "show_ref_count"@[0]);
    assert("perf_profiling"@[0] != "show_ref_count"@[0]);
    assert("utf8_mode"@[0] != "dump_refs"@[0]);
    assert("hash_seed"@[0] != "dump_refs"@[0]);
    assert("faulthandler"@[0] != "malloc_stats"@[0]);
    assert("use_environment"@[0] != "coerce_c_locale"@[0]);
    assert("utf8_mode"@[0] != "allocator"@[0]);
    assert("hash_seed"@[0] != "allocator"@[0]);
    assert("dump_refs"@[0] != "allocator"@[0]);
    assert("isolated"@[0] != "dev_mode"@[0]);
    assert("use_frozen_modules"@[0] != "optimization_level"@[0]);
    assert("faulthandler"@[0] != "parser_debug"@[0]);
    assert("malloc_stats"@[0] != "parser_debug"@[0]);
    assert("site_import"@[0] != "interactive"@[0]);
    assert("tracemalloc"@[0] != "interactive"@[0]);
    assert("import_time"@[1] != "interactive"@[1]);
    assert("verbose"@[0] != "inspect"@[0]);
    assert("use_hash_seed"@[0] != "bytes_warning"@[0]);
    assert("utf8_mode"@[0] != "safe_path"@[0]);
    assert("hash_seed"@[0] != "safe_path"@[0]);
    assert("dump_refs"@[0] != "safe_path"@[0]);
    assert("allocator"@[0] != "safe_path"@[0]);
    assert("use_frozen_modules"@[0] != "int_max_str_digits"@[0]);
    assert("optimization_level"@[0] != "int_max_str_digits"@[0]);
    assert("utf8_mode"@[0] != "cpu_count"@[0]);
    assert("hash_seed"@[0] != "cpu_count"@[0]);
    assert("dump_refs"@[0] != "cpu_count"@[0]);
    assert("allocator"@[0] != "cpu_count"@[0]);
    assert("safe_path"@[0] != "cpu_count"@[0]);
}

/// An integer option of a running interpreter is what the process was started with.
/// Where the process says nothing of it, it is what the interpreter's flag says, and
/// its default where there is no flag.
pub proof fn law_where_an_option_is_read(
    option: Seq<char>,
    free_threading: bool,
    cfg: Option<&EmbedConfig>,
    flag: Option<i64>,
)
    requires
        option != "gil"@,
    ensures
        ({
            let r = pep741::running_int(option, free_threading, cfg, flag);
            let started = match cfg {
                Some(c) => pep741::snapshot(c, option),
                None => None,
            };
            &&& started is Some ==> r == started
            &&& started is None && (pep741::flag_of(option) is None || flag is None) ==> r
                == pep741::default_of(option, free_threading)
            &&& started is None ==> match (pep741::flag_of(option), flag) {
                (Some((_, false)), Some(raw)) => r == Some(raw),
                (Some((_, true)), Some(raw)) => r == Some(
                    if raw == 0 {
                        1i64
                    } else {
                        0i64
                    },
                ),
                _ => true,
            }
        }),
        pep741::running_int("gil"@, true, cfg, flag) == Some(0i64),
        pep741::running_int("gil"@, false, cfg, flag) == Some(1i64),
{
}

/// The interpreter lock is set once: a setting among the options stays, and one is
/// added at the end only where there is none.
pub proof fn law_lock_is_set_once(x: Seq<Seq<char>>, g: i64)
    ensures
        pep741::with_gil(x, None) == x,
        pep741::with_gil(x, Some(g)).take(x.len() as int) == x,
        pep741::has_gil(pep741::with_gil(x, Some(g))),
        pep741::with_gil(pep741::with_gil(x, Some(g)), Some(g)) == pep741::with_gil(x, Some(g)),
        !pep741::has_gil(x) ==> pep741::with_gil(x, Some(g)).len() == x.len() + 1
            && pep741::with_gil(x, Some(g))[x.len() as int] == "gil="@ + text::dec(g as int),
{
    let y = pep741::with_gil(x, Some(g));
    assert(x.take(x.len() as int) =~= x);
    if !pep741::has_gil(x) {
        let e = "gil="@ + text::dec(g as int);
        assert(y == x.push(e));
        assert(y.take(x.len() as int) =~= x);
        assert(e.subrange(0, "gil="@.len() as int) =~= "gil="@);
        assert(search::occurs_at(e, "gil="@, 0));
        assert(y[x.len() as int] == e);
    }
}

proof fn lemma_found(names: Seq<Seq<char>>, name: Seq<char>, i: int)
    requires
        0 <= i <= names.len(),
    ensures
        ({
            let k = pep741::index_in(names, name, i);
            i <= k <= names.len() && (k < names.len() ==> names[k] == name)
        }),
    decreases names.len() - i,
{
    if i < names.len() && names[i] != name {
        lemma_found(names, name, i + 1);
    }
}

/// An integer option is found under its name alone: two names never share a place.
proof fn lemma_apart(name: Seq<char>, other: Seq<char>)
    requires
        name != other,
    ensures
        ({
            let p = pep741::index_in(pep741::pre_names(), name, 0);
            let q = pep741::index_in(pep741::pre_names(), other, 0);
            p == q ==> p == 7
        }),
        ({
            let k = pep741::index_in(pep741::int_names(), name, 0);
            let l = pep741::index_in(pep741::int_names(), other, 0);
            k == l ==> k == 34
        }),
        ({
            let k = pep741::index_in(pep741::str_names(), name, 0);
            let l = pep741::index_in(pep741::str_names(), other, 0);
            k == l ==> k == 22
        }),
        ({
            let k = pep741::index_in(pep741::list_names(), name, 0);
            let l = pep741::index_in(pep741::list_names(), other, 0);
            k == l ==> k == 5
        }),
        0 <= pep741::index_in(pep741::pre_names(), name, 0) <= 7,
        0 <= pep741::index_in(pep741::int_names(), name, 0) <= 34,
        0 <= pep741::index_in(pep741::str_names(), name, 0) <= 22,
        0 <= pep741::index_in(pep741::list_names(), name, 0) <= 5,
        pep741::index_in(pep741::pre_names(), name, 0) == 0 ==> name == "hash_seed"@,
        pep741::index_in(pep741::int_names(), name, 0) == 4 ==> name == "use_hash_seed"@,
        pep741::index_in(pep741::int_names(), name, 0) == 33 ==> name
            == "module_search_paths_set"@,
        pep741::index_in(pep741::list_names(), name, 0) == 4 ==> name == "module_search_paths"@,
{
    lemma_found(pep741::pre_names(), name, 0);
    lemma_found(pep741::pre_names(), other, 0);
    lemma_found(pep741::int_names(), name, 0);
    lemma_found(pep741::int_names(), other, 0);
    lemma_found(pep741::str_names(), name, 0);
    lemma_found(pep741::str_names(), other, 0);
    lemma_found(pep741::list_names(), name, 0);
    lemma_found(pep741::list_names(), other, 0);
}

/// Setting an integer option changes no other option, except that a seed for hashing
/// turns on its own use.
pub proof fn law_integer_leaves_the_others(
    c: ConfigView,
    name: Seq<char>,
    value: i64,
    other: Seq<char>,
)
    requires
        pep741::view_wf(c),
        other != name,
        !(name == "hash_seed"@ && other == "use_hash_seed"@),
    ensures
        ({
            let d = pep741::set_int(c, Some(name), value).0;
            &&& pep741::get_int(d, Some(other)) == pep741::get_int(c, Some(other))
            &&& pep741::get_str(d, Some(other)) == pep741::get_str(c, Some(other))
            &&& pep741::get_list(d, Some(other)) == pep741::get_list(c, Some(other))
        }),
{
    lemma_apart(name, other);
    lemma_apart(other, name);
}

/// Setting a text option changes no other option.
pub proof fn law_text_leaves_the_others(
    c: ConfigView,
    name: Seq<char>,
    value: Option<Seq<char>>,
    other: Seq<char>,
)
    requires
        pep741::view_wf(c),
        other != name,
    ensures
        ({
            let d = pep741::set_str(c, Some(name), value).0;
            &&& pep741::get_int(d, Some(other)) == pep741::get_int(c, Some(other))
            &&& pep741::get_str(d, Some(other)) == pep741::get_str(c, Some(other))
            &&& pep741::get_list(d, Some(other)) == pep741::get_list(c, Some(other))
        }),
{
    lemma_apart(name, other);
    lemma_apart(other, name);
}

/// Setting a list option changes no other option, except that search paths are marked as
/// set.
pub proof fn law_list_leaves_the_others(
    c: ConfigView,
    name: Seq<char>,
    length: int,
    items: Option<Seq<Option<Vec<char>>>>,
    other: Seq<char>,
)
    requires
        pep741::view_wf(c),
        other != name,
        !(name == "module_search_paths"@ && other == "module_search_paths_set"@),
    ensures
        ({
            let d = pep741::set_list(c, Some(name), length, items).0;
            &&& pep741::get_int(d, Some(other)) == pep741::get_int(c, Some(other))
            &&& pep741::get_str(d, Some(other)) == pep741::get_str(c, Some(other))
            &&& pep741::get_list(d, Some(other)) == pep741::get_list(c, Some(other))
        }),
{
    lemma_apart(name, other);
    lemma_apart(other, name);
}

/// An option can be set exactly where it can be read as one of its kind: an integer in the
/// range of a C int, and for the lock zero or one; a text and a list where all of it is
/// there.
pub proof fn law_what_can_be_set(
    c: ConfigView,
    name: Seq<char>,
    value: i64,
    text: Seq<char>,
    items: Seq<Option<Vec<char>>>,
)
    requires
        forall|i: int| 0 <= i < items.len() ==> #[trigger] items[i] is Some,
    ensures
        0 <= value <= 1 ==> (pep741::set_int(c, Some(name), value).1 == 0 <==> pep741::get_int(
            c,
            Some(name),
        ) is Ok),
        -0x8000_0000 <= value < 0x8000_0000 && name != "gil"@ ==> (pep741::set_int(
            c,
            Some(name),
            value,
        ).1 == 0 <==> pep741::get_int(c, Some(name)) is Ok),
        pep741::set_int(c, Some(name), value).1 == 0 ==> pep741::get_int(c, Some(name)) is Ok,
        pep741::set_int(c, Some(name), value).1 == 0 || pep741::set_int(c, Some(name), value).1
            == -1,
        pep741::set_str(c, Some(name), Some(text)).1 == 0 <==> pep741::get_str(
            c,
            Some(name),
        ) is Ok,
        pep741::set_str(c, Some(name), None).1 == -1,
        pep741::set_list(c, Some(name), items.len() as int, Some(items)).1 == 0
            <==> pep741::get_list(c, Some(name)) is Ok,
        pep741::set_int(c, None, value).1 == -1,
        pep741::set_str(c, None, Some(text)).1 == -1,
        pep741::set_list(c, None, items.len() as int, Some(items)).1 == -1,
{
    lemma_no_gap(items, 0);
    lemma_found(pep741::pre_names(), name, 0);
}

proof fn lemma_no_gap(items: Seq<Option<Vec<char>>>, i: int)
    requires
        forall|k: int| 0 <= k < items.len() ==> #[trigger] items[k] is Some,
        0 <= i <= items.len(),
    ensures
        pep741::null_item(items, items.len() as int, i) == items.len(),
    decreases items.len() - i,
{
    if i < items.len() {
        assert(items[i] is Some);
        lemma_no_gap(items, i + 1);
    }
}

/// A message is kept as it is, with a question mark for each NUL.
pub proof fn law_failure_message(c: ConfigView, m: Seq<char>)
    ensures
        ({
            let d = c.failed(m);
            &&& d == ConfigView { err: d.err, ..c }
            &&& d.err is Some
            &&& d.err->Some_0.len() == m.len()
            &&& forall|i: int|
                0 <= i < m.len() ==> #[trigger] d.err->Some_0[i] == (if m[i] == '\0' {
                    '?'
                } else {
                    m[i]
                })
        }),
{
}

/// An option of another kind is named as such, an unknown one as unknown.
pub proof fn law_refused_option(name: Seq<char>, what: Seq<char>)
    ensures
        pep741::known(name) ==> pep741::mismatch(name, what) == "\""@ + name + what,
        !pep741::known(name) ==> pep741::mismatch(name, what) == "unknown option name \""@ + name
            + "\""@,
{
}

} // verus!
