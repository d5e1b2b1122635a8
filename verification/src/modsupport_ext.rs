//! Module definition registries and the argument helpers that generated
//! argument-parsing code calls.

use std::collections::HashMap;
use vstd::prelude::*;
use crate::errors;
use crate::errors::{raise, raise_str, ExcKind, Failure, FailureView};
use crate::search;
use crate::text;
use crate::text::{push_all, push_dec, push_str, same, slice_of};

verus! {

broadcast use vstd::std_specs::hash::group_hash_axioms;

// ---------------------------------------------------------------------------
// Module definitions
// ---------------------------------------------------------------------------

/// The definition that each module was created from, by the module's identity.
pub struct ModuleDefs {
    map: HashMap<usize, usize>,
}

impl View for ModuleDefs {
    type V = Map<usize, usize>;

    closed spec fn view(&self) -> Map<usize, usize> {
        self.map@
    }
}

impl ModuleDefs {
    /// No module is recorded.
    pub fn new() -> (r: ModuleDefs)
        ensures
            r@ == Map::<usize, usize>::empty(),
    {
        ModuleDefs { map: HashMap::new() }
    }
}

/// Record a module's definition. The first record for a module stays, and a
/// NULL definition is not recorded.
pub fn register_module_def(defs: &mut ModuleDefs, module_key: usize, def: usize)
    ensures
        final(defs)@ == (if def == 0 || old(defs)@.dom().contains(module_key) {
            old(defs)@
        } else {
            old(defs)@.insert(module_key, def)
        }),
{
    if def == 0 {
        return;
    }
    if !defs.map.contains_key(&module_key) {
        defs.map.insert(module_key, def);
    }
}

/// The definition of a module, zero for one that was created without; `None`
/// is an argument that is no module.
pub fn PyModule_GetDef(defs: &ModuleDefs, module_key: Option<usize>) -> (r: Result<usize, Failure>)
    ensures
        match module_key {
            None => errors::raises(
                r,
                ExcKind::TypeError,
                "PyModule_GetDef() argument must be a module"@,
            ),
            Some(k) => r is Ok && r->Ok_0 == (if defs@.dom().contains(k) {
                defs@[k]
            } else {
                0
            }),
        },
{
    match module_key {
        None => Err(raise_str(ExcKind::TypeError, "PyModule_GetDef() argument must be a module")),
        Some(k) => match defs.map.get(&k) {
            Some(d) => Ok(*d),
            None => Ok(0),
        },
    }
}

/// A recorded definition does not change: a later record for the same module
/// is ignored.
pub proof fn law_first_definition_stays(
    before: Map<usize, usize>,
    key: usize,
    first: usize,
    second: usize,
)
    requires
        first != 0,
        !before.dom().contains(key),
    ensures
        ({
            let once = before.insert(key, first);
            let twice = if second == 0 || once.dom().contains(key) {
                once
            } else {
                once.insert(key, second)
            };
            twice == once && twice[key] == first
        }),
{
}

/// Modules that can be found again by their definitions.
pub struct FoundModules {
    map: HashMap<usize, usize>,
}

impl View for FoundModules {
    type V = Map<usize, usize>;

    closed spec fn view(&self) -> Map<usize, usize> {
        self.map@
    }
}

impl FoundModules {
    /// No module is registered.
    pub fn new() -> (r: FoundModules)
        ensures
            r@ == Map::<usize, usize>::empty(),
    {
        FoundModules { map: HashMap::new() }
    }

    /// The module registered for a definition, zero for none.
    pub fn find(&self, def: usize) -> (r: usize)
        ensures
            r == (if self@.dom().contains(def) {
                self@[def]
            } else {
                0
            }),
    {
        match self.map.get(&def) {
            Some(m) => *m,
            None => 0,
        }
    }

    /// Register a module for its definition.
    pub fn register(&mut self, def: usize, module: usize)
        ensures
            final(self)@ == old(self)@.insert(def, module),
    {
        self.map.insert(def, module);
    }
}

/// Register a module so that it can be found by its definition. Definitions
/// with slots are refused.
pub fn PyState_AddModule(
    found: &mut FoundModules,
    module: usize,
    def: usize,
    has_slots: bool,
) -> (r: Result<(), Failure>)
    ensures
        if module == 0 || def == 0 {
            errors::raises(r, ExcKind::RuntimeError, "PyState_AddModule: NULL argument"@)
                && final(found)@ == old(found)@
        } else if has_slots {
            errors::raises(
                r,
                ExcKind::SystemError,
                "PyState_AddModule called on module with slots"@,
            ) && final(found)@ == old(found)@
        } else {
            r is Ok && final(found)@ == old(found)@.insert(def, module)
        },
{
    if module == 0 || def == 0 {
        return Err(raise_str(ExcKind::RuntimeError, "PyState_AddModule: NULL argument"));
    }
    if has_slots {
        return Err(
            raise_str(ExcKind::SystemError, "PyState_AddModule called on module with slots"),
        );
    }
    found.map.insert(def, module);
    Ok(())
}

/// Drop a registration. Definitions with slots are refused.
pub fn PyState_RemoveModule(found: &mut FoundModules, def: usize, has_slots: bool) -> (r: Result<
    (),
    Failure,
>)
    ensures
        if def != 0 && has_slots {
            errors::raises(
                r,
                ExcKind::SystemError,
                "PyState_RemoveModule called on module with slots"@,
            ) && final(found)@ == old(found)@
        } else {
            r is Ok && final(found)@ == old(found)@.remove(def)
        },
{
    if def != 0 && has_slots {
        return Err(
            raise_str(ExcKind::SystemError, "PyState_RemoveModule called on module with slots"),
        );
    }
    found.map.remove(&def);
    Ok(())
}

/// The module that a heap type was created under; zero is none.
pub fn PyType_GetModule(module: usize) -> (r: Result<usize, Failure>)
    ensures
        module == 0 ==> errors::raises(
            r,
            ExcKind::SystemError,
            "PyType_GetModule: type_getmodule"@,
        ),
        module != 0 ==> r is Ok && r->Ok_0 == module,
{
    if module == 0 {
        Err(raise_str(ExcKind::SystemError, "PyType_GetModule: type_getmodule"))
    } else {
        Ok(module)
    }
}

/// A clock reading in nanoseconds, cut to the signed 64-bit range; `None` for
/// a NULL destination.
pub fn PyTime_Monotonic(result_null: bool, elapsed: u128) -> (r: Option<i64>)
    ensures
        result_null ==> r is None,
        !result_null ==> r == Some(
            if elapsed <= i64::MAX {
                elapsed as i64
            } else {
                i64::MAX
            },
        ),
{
    if result_null {
        None
    } else if elapsed <= i64::MAX as u128 {
        Some(elapsed as i64)
    } else {
        Some(i64::MAX)
    }
}

// ---------------------------------------------------------------------------
// Argument helpers
// ---------------------------------------------------------------------------

/// The plural ending for a count.
pub open spec fn plural(n: int) -> Seq<char> {
    if n == 1 {
        ""@
    } else {
        "s"@
    }
}

fn push_plural(m: &mut Vec<char>, n: isize)
    ensures
        final(m)@ == old(m)@ + plural(n as int),
{
    if n == 1 {
        push_str(m, "");
    } else {
        push_str(m, "s");
    }
}

/// `<name>() takes <bound> <k> argument(s) (<n> given)`.
pub open spec fn arity_message(
    name: Option<Seq<char>>,
    bound: Seq<char>,
    k: int,
    given: int,
) -> Seq<char> {
    (match name {
        Some(n) => n + "()"@,
        None => "function"@,
    }) + " takes "@ + bound + text::dec(k) + " argument"@ + plural(k) + " ("@ + text::dec(given)
        + " given)"@
}

fn arity_failure(name: Option<&[char]>, bound: &str, k: isize, given: isize) -> (r: Failure)
    ensures
        r@ == FailureView::Raised(
            ExcKind::TypeError,
            arity_message(
                match name {
                    Some(n) => Some(n@),
                    None => None,
                },
                bound@,
                k as int,
                given as int,
            ),
        ),
{
    let mut m: Vec<char> = match name {
        Some(n) => {
            let mut t: Vec<char> = slice_of(n, 0, n.len());
            assert(t@ =~= n@);
            push_str(&mut t, "()");
            t
        },
        None => text::text("function"),
    };
    push_str(&mut m, " takes ");
    push_str(&mut m, bound);
    push_dec(&mut m, k as i128);
    push_str(&mut m, " argument");
    push_plural(&mut m, k);
    push_str(&mut m, " (");
    push_dec(&mut m, given as i128);
    push_str(&mut m, " given)");
    raise(ExcKind::TypeError, m)
}

/// What a positional-argument count is answered: nothing wrong, or a message.
pub open spec fn positional_check(
    name: Option<Seq<char>>,
    nargs: int,
    min: int,
    max: int,
) -> Option<Seq<char>> {
    if nargs < min {
        Some(
            arity_message(
                name,
                if min == max {
                    "exactly "@
                } else {
                    "at least "@
                },
                min,
                nargs,
            ),
        )
    } else if nargs > max && nargs != 0 {
        Some(
            arity_message(
                name,
                if min == max {
                    "exactly "@
                } else {
                    "at most "@
                },
                max,
                nargs,
            ),
        )
    } else {
        None
    }
}

/// Check the number of positional arguments.
pub fn _PyArg_CheckPositional(name: Option<&[char]>, nargs: isize, min: isize, max: isize) -> (r:
    Result<(), Failure>)
    ensures
        match positional_check(
            match name {
                Some(n) => Some(n@),
                None => None,
            },
            nargs as int,
            min as int,
            max as int,
        ) {
            Some(m) => errors::raises(r, ExcKind::TypeError, m),
            None => r is Ok,
        },
{
    if nargs < min {
        let bound = if min == max {
            "exactly "
        } else {
            "at least "
        };
        return Err(arity_failure(name, bound, min, nargs));
    }
    if nargs == 0 {
        return Ok(());
    }
    if nargs > max {
        let bound = if min == max {
            "exactly "
        } else {
            "at most "
        };
        return Err(arity_failure(name, bound, max, nargs));
    }
    Ok(())
}

/// The parts of an argument parser that unpacking reads.
#[derive(Debug)]
pub struct PyArgParser {
    /// The names of the parameters that can be given by keyword, in order.
    pub keywords: Vec<Vec<char>>,
    pub fname: Option<Vec<char>>,
    /// The number of positional-only parameters.
    pub pos: i32,
}

impl PyArgParser {
    /// The function's name in messages.
    pub open spec fn name(&self) -> Seq<char> {
        match self.fname {
            Some(f) => f@,
            None => "function"@,
        }
    }

    /// The number of positional-only parameters, not below zero.
    pub open spec fn pos_only(&self) -> int {
        if self.pos < 0 {
            0
        } else {
            self.pos as int
        }
    }
}

fn parser_name(parser: &PyArgParser) -> (r: Vec<char>)
    ensures
        r@ == parser.name(),
{
    match &parser.fname {
        Some(f) => {
            assert(f@.subrange(0, f@.len() as int) =~= f@);
            slice_of(f.as_slice(), 0, f.len())
        },
        None => text::text("function"),
    }
}

/// The name of a keyword argument.
#[derive(Debug)]
pub enum KwName {
    Str(Vec<char>),
    Other,
}

/// The keyword arguments of a call.
#[derive(Debug)]
pub enum KwInput {
    /// Neither names nor a dict.
    Absent,
    /// A tuple of names; the values follow the positional arguments.
    Names(Vec<KwName>),
    /// A dict of names and values.
    Dict(Vec<(KwName, usize)>),
    /// Something else, which carries no arguments.
    Opaque,
}

/// The keyword arguments as pairs of name and value.
pub open spec fn kw_pairs(kw: KwInput, args: Seq<usize>, nargs: int) -> Seq<(KwName, usize)> {
    match kw {
        KwInput::Names(v) => Seq::new(v@.len(), |i: int| (v@[i], args[nargs + i])),
        KwInput::Dict(v) => v@,
        _ => Seq::empty(),
    }
}

/// Pairs of texts and values.
pub open spec fn named(v: Seq<(Vec<char>, usize)>) -> Seq<(Seq<char>, usize)> {
    v.map_values(|p: (Vec<char>, usize)| (p.0@, p.1))
}

/// Keyword arguments whose names are all strs.
pub open spec fn kw_named(pairs: Seq<(KwName, usize)>) -> Seq<(Seq<char>, usize)> {
    pairs.map_values(|p: (KwName, usize)| (p.0->Str_0@, p.1))
}

/// The index of a name among the parameters, from `i` on.
pub open spec fn keyword_index(keywords: Seq<Seq<char>>, key: Seq<char>, i: int) -> int
    decreases keywords.len() - i,
{
    if i < 0 || i >= keywords.len() || keywords[i] == key {
        i
    } else {
        keyword_index(keywords, key, i + 1)
    }
}

/// Put one keyword argument into its slot, or say what is wrong with it.
pub open spec fn place(
    buf: Seq<usize>,
    p: &PyArgParser,
    nargs: int,
    key: Seq<char>,
    value: usize,
) -> Result<Seq<usize>, Seq<char>> {
    let idx = keyword_index(search::texts(p.keywords@), key, 0);
    let slot = p.pos_only() + idx;
    if idx >= p.keywords@.len() {
        Err("'"@ + key + "' is an invalid keyword argument for "@ + p.name() + "()"@)
    } else if slot < nargs && buf[slot] != 0 {
        Err(
            "argument for "@ + p.name() + "() given by name ('"@ + key + "') and position ("@
                + text::dec(slot + 1) + ")"@,
        )
    } else {
        Ok(buf.update(slot, value))
    }
}

/// Put the first `n` keyword arguments into their slots.
pub open spec fn place_all(
    buf: Seq<usize>,
    p: &PyArgParser,
    nargs: int,
    pairs: Seq<(Seq<char>, usize)>,
    n: int,
) -> Result<Seq<usize>, Seq<char>>
    decreases n,
{
    if n <= 0 {
        Ok(buf)
    } else {
        match place_all(buf, p, nargs, pairs, n - 1) {
            Err(m) => Err(m),
            Ok(b) => place(b, p, nargs, pairs[n - 1].0, pairs[n - 1].1),
        }
    }
}

/// The first empty slot at or after `i`.
pub open spec fn empty_slot(buf: Seq<usize>, i: int) -> int
    decreases buf.len() - i,
{
    if i < 0 || i >= buf.len() || buf[i] == 0 {
        i
    } else {
        empty_slot(buf, i + 1)
    }
}

/// The number of parameter slots.
pub open spec fn slot_count(p: &PyArgParser, maxpos: int) -> int {
    let named = p.pos_only() + p.keywords@.len();
    if named < maxpos {
        maxpos
    } else {
        named
    }
}

/// The slots with only the positional arguments in them.
pub open spec fn positional_slots(args: Seq<usize>, nargs: int, n: int) -> Seq<usize> {
    Seq::new(n as nat, |i: int| if i < nargs { args[i] } else { 0usize })
}

/// A complaint about the number of positional arguments.
pub open spec fn positional_message(
    name: Seq<char>,
    bound: Seq<char>,
    k: int,
    given: int,
) -> Seq<char> {
    name + "() takes "@ + bound + text::dec(k) + " positional argument"@ + plural(k) + " ("@
        + text::dec(given) + " given)"@
}

/// Distribute positional and keyword arguments into the parameter slots:
/// positional-only parameters first, then the named ones in order. A parameter
/// that is not given stays zero. Or the message of the `TypeError`.
pub open spec fn unpack(
    args: Seq<usize>,
    nargs: int,
    kw: KwInput,
    p: &PyArgParser,
    minpos: int,
    maxpos: int,
    minkw: int,
) -> Result<Seq<usize>, Seq<char>> {
    let pairs = kw_pairs(kw, args, nargs);
    if nargs > maxpos {
        Err(positional_message(p.name(), "at most "@, maxpos, nargs))
    } else if nargs < minpos && kw is Absent {
        Err(positional_message(p.name(), "at least "@, minpos, nargs))
    } else if exists|i: int| 0 <= i < pairs.len() && pairs[i].0 is Other {
        Err("keywords must be strings"@)
    } else {
        let start = positional_slots(args, nargs, slot_count(p, maxpos));
        match place_all(start, p, nargs, kw_named(pairs), pairs.len() as int) {
            Err(m) => Err(m),
            Ok(b) => if empty_slot(b, 0) < minpos {
                Err(
                    p.name() + "() missing required positional argument "@ + text::dec(
                        empty_slot(b, 0) + 1,
                    ),
                )
            } else if pairs.len() < minkw {
                Err(p.name() + "() missing required keyword-only argument(s)"@)
            } else {
                Ok(b)
            },
        }
    }
}

fn positional_failure(p: &PyArgParser, bound: &str, k: i32, given: isize) -> (r: Failure)
    ensures
        r@ == FailureView::Raised(
            ExcKind::TypeError,
            positional_message(p.name(), bound@, k as int, given as int),
        ),
{
    let mut m: Vec<char> = parser_name(p);
    push_str(&mut m, "() takes ");
    push_str(&mut m, bound);
    push_dec(&mut m, k as i128);
    push_str(&mut m, " positional argument");
    if k == 1 {
        push_str(&mut m, "");
    } else {
        push_str(&mut m, "s");
    }
    push_str(&mut m, " (");
    push_dec(&mut m, given as i128);
    push_str(&mut m, " given)");
    raise(ExcKind::TypeError, m)
}

fn find_keyword(p: &PyArgParser, key: &Vec<char>) -> (r: usize)
    ensures
        r == keyword_index(search::texts(p.keywords@), key@, 0),
        r <= p.keywords@.len(),
{
    let mut i: usize = 0;
    while i < p.keywords.len()
        invariant
            i <= p.keywords@.len(),
            keyword_index(search::texts(p.keywords@), key@, 0) == keyword_index(
                search::texts(p.keywords@),
                key@,
                i as int,
            ),
        decreases p.keywords.len() - i,
    {
        assert(search::texts(p.keywords@)[i as int] == p.keywords@[i as int]@);
        if same(p.keywords[i].as_slice(), key.as_slice()) {
            return i;
        }
        i = i + 1;
    }
    i
}

fn place_one(buf: &mut Vec<usize>, p: &PyArgParser, nargs: usize, key: &Vec<char>, value: usize)
    -> (r: Result<(), Failure>)
    requires
        old(buf)@.len() >= p.pos_only() + p.keywords@.len(),
    ensures
        match place(old(buf)@, p, nargs as int, key@, value) {
            Ok(b) => r is Ok && final(buf)@ == b,
            Err(m) => errors::raises(r, ExcKind::TypeError, m),
        },
        final(buf)@.len() == old(buf)@.len(),
{
    let idx: usize = find_keyword(p, key);
    if idx >= p.keywords.len() {
        let mut m: Vec<char> = text::text("'");
        push_all(&mut m, key.as_slice());
        push_str(&mut m, "' is an invalid keyword argument for ");
        push_all(&mut m, parser_name(p).as_slice());
        push_str(&mut m, "()");
        return Err(raise(ExcKind::TypeError, m));
    }
    let pos_only: usize = if p.pos < 0 {
        0
    } else {
        p.pos as usize
    };
    let len: usize = buf.len();
    let slot: usize = pos_only + idx;
    if slot < nargs && buf[slot] != 0 {
        let mut m: Vec<char> = text::text("argument for ");
        push_all(&mut m, parser_name(p).as_slice());
        push_str(&mut m, "() given by name ('");
        push_all(&mut m, key.as_slice());
        push_str(&mut m, "') and position (");
        push_dec(&mut m, slot as i128 + 1);
        push_str(&mut m, ")");
        return Err(raise(ExcKind::TypeError, m));
    }
    buf.set(slot, value);
    Ok(())
}

/// Collect the keyword arguments; `None` where a name is no str.
fn collect_kw(kw: &KwInput, args: &[usize], nargs: usize) -> (r: Option<Vec<(Vec<char>, usize)>>)
    requires
        kw matches KwInput::Names(v) ==> nargs + v@.len() <= args@.len(),
    ensures
        ({
            let pairs = kw_pairs(*kw, args@, nargs as int);
            &&& r is None <==> exists|i: int| 0 <= i < pairs.len() && pairs[i].0 is Other
            &&& r is Some ==> named(r->0@) == kw_named(pairs)
        }),
{
    let ghost pairs = kw_pairs(*kw, args@, nargs as int);
    let mut out: Vec<(Vec<char>, usize)> = Vec::new();
    assert(named(out@) =~= kw_named(pairs.subrange(0, 0)));
    match kw {
        KwInput::Names(v) => {
            let avail: usize = args.len();
            let mut i: usize = 0;
            while i < v.len()
                invariant
                    i <= v@.len(),
                    avail == args@.len(),
                    nargs + v@.len() <= args@.len(),
                    *kw == KwInput::Names(*v),
                    pairs == kw_pairs(*kw, args@, nargs as int),
                    pairs.len() == v@.len(),
                    forall|k: int| 0 <= k < i ==> !(pairs[k].0 is Other),
                    named(out@) == kw_named(pairs.subrange(0, i as int)),
                decreases v.len() - i,
            {
                assert(pairs[i as int] == (v@[i as int], args@[nargs + i]));
                match &v[i] {
                    KwName::Str(key) => {
                        assert(key@.subrange(0, key@.len() as int) =~= key@);
                        let ghost before = out@;
                        out.push((slice_of(key.as_slice(), 0, key.len()), args[nargs + i]));
                        assert(named(out@) =~= named(before).push((key@, args@[nargs + i])));
                        assert(kw_named(pairs.subrange(0, i + 1)) =~= kw_named(
                            pairs.subrange(0, i as int),
                        ).push((key@, args@[nargs + i])));
                    },
                    KwName::Other => {
                        assert(pairs[i as int].0 is Other);
                        return None;
                    },
                }
                i = i + 1;
            }
        },
        KwInput::Dict(v) => {
            let mut i: usize = 0;
            while i < v.len()
                invariant
                    i <= v@.len(),
                    *kw == KwInput::Dict(*v),
                    pairs == kw_pairs(*kw, args@, nargs as int),
                    pairs == v@,
                    forall|k: int| 0 <= k < i ==> !(pairs[k].0 is Other),
                    named(out@) == kw_named(pairs.subrange(0, i as int)),
                decreases v.len() - i,
            {
                match &v[i].0 {
                    KwName::Str(key) => {
                        assert(key@.subrange(0, key@.len() as int) =~= key@);
                        let ghost before = out@;
                        out.push((slice_of(key.as_slice(), 0, key.len()), v[i].1));
                        assert(named(out@) =~= named(before).push((key@, v@[i as int].1)));
                        assert(kw_named(pairs.subrange(0, i + 1)) =~= kw_named(
                            pairs.subrange(0, i as int),
                        ).push((key@, v@[i as int].1)));
                    },
                    KwName::Other => {
                        assert(pairs[i as int].0 is Other);
                        return None;
                    },
                }
                i = i + 1;
            }
        },
        _ => {},
    }
    assert(pairs.subrange(0, pairs.len() as int) =~= pairs);
    Some(out)
}

/// Put keyword arguments into their slots.
fn place_pairs(
    buf: &mut Vec<usize>,
    p: &PyArgParser,
    nargs: usize,
    pairs: &Vec<(Vec<char>, usize)>,
) -> (r: Result<(), Failure>)
    requires
        old(buf)@.len() >= p.pos_only() + p.keywords@.len(),
    ensures
        match place_all(old(buf)@, p, nargs as int, named(pairs@), pairs@.len() as int) {
            Ok(b) => r is Ok && final(buf)@ == b,
            Err(m) => errors::raises(r, ExcKind::TypeError, m),
        },
        final(buf)@.len() == old(buf)@.len(),
{
    let ghost start = buf@;
    let mut k: usize = 0;
    while k < pairs.len()
        invariant
            k <= pairs@.len(),
            start == old(buf)@,
            buf@.len() == start.len(),
            buf@.len() >= p.pos_only() + p.keywords@.len(),
            place_all(start, p, nargs as int, named(pairs@), k as int) == Ok::<
                Seq<usize>,
                Seq<char>,
            >(buf@),
        decreases pairs.len() - k,
    {
        assert(named(pairs@)[k as int] == (pairs@[k as int].0@, pairs@[k as int].1));
        match place_one(buf, p, nargs, &pairs[k].0, pairs[k].1) {
            Ok(_) => {},
            Err(e) => {
                proof {
                    lemma_place_fails(
                        start,
                        p,
                        nargs as int,
                        named(pairs@),
                        k + 1,
                        pairs@.len() as int,
                    );
                }
                return Err(e);
            },
        }
        k = k + 1;
    }
    Ok(())
}

/// Distribute the arguments of a call into the slots of its parameters.
pub fn _PyArg_UnpackKeywords(
    args: &[usize],
    nargs: usize,
    kw: &KwInput,
    parser: Option<&PyArgParser>,
    buf_null: bool,
    minpos: i32,
    maxpos: i32,
    minkw: i32,
) -> (r: Result<Vec<usize>, Failure>)
    requires
        nargs <= args@.len(),
        kw matches KwInput::Names(v) ==> nargs + v@.len() <= args@.len(),
        0 <= minpos,
        0 <= maxpos,
        nargs <= isize::MAX,
        parser matches Some(p) ==> p.pos_only() + p.keywords@.len() <= usize::MAX && minpos
            <= slot_count(p, maxpos as int),
    ensures
        if parser is None || buf_null {
            errors::raises(r, ExcKind::RuntimeError, "_PyArg_UnpackKeywords: NULL parser/buf"@)
        } else {
            match unpack(
                args@,
                nargs as int,
                *kw,
                parser->0,
                minpos as int,
                maxpos as int,
                minkw as int,
            ) {
                Ok(b) => r is Ok && r->Ok_0@ == b,
                Err(m) => errors::raises(r, ExcKind::TypeError, m),
            }
        },
{
    let p = match parser {
        None => {
            return Err(
                raise_str(ExcKind::RuntimeError, "_PyArg_UnpackKeywords: NULL parser/buf"),
            );
        },
        Some(p) => p,
    };
    if buf_null {
        return Err(raise_str(ExcKind::RuntimeError, "_PyArg_UnpackKeywords: NULL parser/buf"));
    }
    if nargs > maxpos as usize {
        return Err(positional_failure(p, "at most ", maxpos, nargs as isize));
    }
    let absent: bool = match kw {
        KwInput::Absent => true,
        _ => false,
    };
    if nargs < minpos as usize && absent {
        return Err(positional_failure(p, "at least ", minpos, nargs as isize));
    }
    let ghost pairs = kw_pairs(*kw, args@, nargs as int);
    let given = match collect_kw(kw, args, nargs) {
        None => {
            return Err(raise_str(ExcKind::TypeError, "keywords must be strings"));
        },
        Some(v) => v,
    };
    assert(given@.len() == pairs.len()) by {
        assert(named(given@).len() == kw_named(pairs).len());
    }
    let pos_only: usize = if p.pos < 0 {
        0
    } else {
        p.pos as usize
    };
    let by_name: usize = pos_only + p.keywords.len();
    let total: usize = if by_name < maxpos as usize {
        maxpos as usize
    } else {
        by_name
    };
    let mut buf: Vec<usize> = Vec::new();
    let mut i: usize = 0;
    while i < total
        invariant
            i <= total,
            nargs <= args@.len(),
            buf@ == positional_slots(args@, nargs as int, i as int),
        decreases total - i,
    {
        if i < nargs {
            buf.push(args[i]);
        } else {
            buf.push(0);
        }
        i = i + 1;
        assert(buf@ =~= positional_slots(args@, nargs as int, i as int));
    }
    match place_pairs(&mut buf, p, nargs, &given) {
        Ok(_) => {},
        Err(e) => {
            return Err(e);
        },
    }
    let mut j: usize = 0;
    while j < minpos as usize
        invariant
            0 <= minpos,
            j <= minpos as usize <= buf@.len(),
            empty_slot(buf@, 0) == empty_slot(buf@, j as int),
            !(parser is None || buf_null),
            p == parser->0,
            unpack(
                args@,
                nargs as int,
                *kw,
                p,
                minpos as int,
                maxpos as int,
                minkw as int,
            ) == (if empty_slot(buf@, 0) < minpos {
                Err::<Seq<usize>, Seq<char>>(
                    p.name() + "() missing required positional argument "@ + text::dec(
                        empty_slot(buf@, 0) + 1,
                    ),
                )
            } else if pairs.len() < minkw {
                Err(p.name() + "() missing required keyword-only argument(s)"@)
            } else {
                Ok(buf@)
            }),
        decreases minpos as usize - j,
    {
        if buf[j] == 0 {
            let mut m: Vec<char> = parser_name(p);
            push_str(&mut m, "() missing required positional argument ");
            push_dec(&mut m, j as i128 + 1);
            return Err(raise(ExcKind::TypeError, m));
        }
        j = j + 1;
    }
    proof {
        lemma_empty_slot(buf@, j as int);
    }
    if minkw > 0 && given.len() < minkw as usize {
        let mut m: Vec<char> = parser_name(p);
        push_str(&mut m, "() missing required keyword-only argument(s)");
        return Err(raise(ExcKind::TypeError, m));
    }
    Ok(buf)
}

proof fn lemma_empty_slot(buf: Seq<usize>, j: int)
    requires
        0 <= j,
    ensures
        empty_slot(buf, j) >= j,
    decreases buf.len() - j,
{
    if j < buf.len() && buf[j] != 0 {
        lemma_empty_slot(buf, j + 1);
    }
}

proof fn lemma_place_fails(
    start: Seq<usize>,
    p: &PyArgParser,
    nargs: int,
    pairs: Seq<(Seq<char>, usize)>,
    k: int,
    n: int,
)
    requires
        0 <= k <= n,
        place_all(start, p, nargs, pairs, k) is Err,
    ensures
        place_all(start, p, nargs, pairs, n) == place_all(start, p, nargs, pairs, k),
    decreases n,
{
    if k < n {
        lemma_place_fails(start, p, nargs, pairs, k, n - 1);
    }
}

proof fn lemma_keyword_index(keywords: Seq<Seq<char>>, key: Seq<char>, i: int)
    requires
        0 <= i,
    ensures
        keyword_index(keywords, key, i) >= i,
    decreases keywords.len() - i,
{
    if i < keywords.len() && keywords[i] != key {
        lemma_keyword_index(keywords, key, i + 1);
    }
}

proof fn lemma_place_keeps(
    start: Seq<usize>,
    p: &PyArgParser,
    nargs: int,
    pairs: Seq<(Seq<char>, usize)>,
    n: int,
    i: int,
)
    requires
        place_all(start, p, nargs, pairs, n) is Ok,
        0 <= i < nargs,
        i < start.len(),
        start.len() >= p.pos_only() + p.keywords@.len(),
        start[i] != 0,
    ensures
        place_all(start, p, nargs, pairs, n)->Ok_0.len() == start.len(),
        place_all(start, p, nargs, pairs, n)->Ok_0[i] == start[i],
    decreases n,
{
    if n > 0 {
        lemma_place_keeps(start, p, nargs, pairs, n - 1, i);
        lemma_keyword_index(search::texts(p.keywords@), pairs[n - 1].0, 0);
    }
}

/// A positional argument is never displaced by a keyword argument.
pub proof fn law_positional_arguments_stay(
    args: Seq<usize>,
    nargs: int,
    kw: KwInput,
    p: &PyArgParser,
    minpos: int,
    maxpos: int,
    minkw: int,
    i: int,
)
    requires
        0 <= i < nargs,
        args[i] != 0,
        maxpos >= 0,
        unpack(args, nargs, kw, p, minpos, maxpos, minkw) is Ok,
    ensures
        unpack(args, nargs, kw, p, minpos, maxpos, minkw)->Ok_0[i] == args[i],
{
    let pairs = kw_pairs(kw, args, nargs);
    let start = positional_slots(args, nargs, slot_count(p, maxpos));
    lemma_place_keeps(start, p, nargs, kw_named(pairs), pairs.len() as int, i);
}

/// A name is found where it stands first.
proof fn lemma_keyword_found(keywords: Seq<Seq<char>>, key: Seq<char>, i: int, j: int)
    requires
        0 <= i <= j < keywords.len(),
        keywords[j] == key,
        forall|k: int| i <= k < j ==> keywords[k] != key,
    ensures
        keyword_index(keywords, key, i) == j,
    decreases j - i,
{
    if i < j {
        lemma_keyword_found(keywords, key, i + 1, j);
    }
}

proof fn lemma_keyword_is(keywords: Seq<Seq<char>>, key: Seq<char>, i: int)
    requires
        0 <= i <= keywords.len(),
    ensures
        i <= keyword_index(keywords, key, i) <= keywords.len(),
        keyword_index(keywords, key, i) < keywords.len() ==> keywords[keyword_index(
            keywords,
            key,
            i,
        )] == key,
    decreases keywords.len() - i,
{
    if i < keywords.len() && keywords[i] != key {
        lemma_keyword_is(keywords, key, i + 1);
    }
}

/// Of several values under one name this is the last.
pub open spec fn last_of_name(pairs: Seq<(Seq<char>, usize)>, k: int, n: int) -> bool {
    forall|q: int| k < q < n ==> (#[trigger] pairs[q]).0 != pairs[k].0
}

/// The slot of a name.
pub open spec fn slot_for(p: &PyArgParser, key: Seq<char>) -> int {
    p.pos_only() + keyword_index(search::texts(p.keywords@), key, 0)
}

proof fn lemma_placed_len(
    start: Seq<usize>,
    p: &PyArgParser,
    nargs: int,
    pairs: Seq<(Seq<char>, usize)>,
    n: int,
)
    requires
        start.len() >= p.pos_only() + p.keywords@.len(),
        place_all(start, p, nargs, pairs, n) is Ok,
    ensures
        place_all(start, p, nargs, pairs, n)->Ok_0.len() == start.len(),
    decreases n,
{
    if n > 0 {
        lemma_placed_len(start, p, nargs, pairs, n - 1);
        lemma_keyword_is(search::texts(p.keywords@), pairs[n - 1].0, 0);
    }
}

proof fn lemma_placed_at(
    start: Seq<usize>,
    p: &PyArgParser,
    nargs: int,
    pairs: Seq<(Seq<char>, usize)>,
    n: int,
    k: int,
)
    requires
        0 <= k < n <= pairs.len(),
        start.len() >= p.pos_only() + p.keywords@.len(),
        place_all(start, p, nargs, pairs, n) is Ok,
    ensures
        keyword_index(search::texts(p.keywords@), pairs[k].0, 0) < p.keywords@.len(),
        last_of_name(pairs, k, n) ==> place_all(start, p, nargs, pairs, n)->Ok_0[slot_for(
            p,
            pairs[k].0,
        )] == pairs[k].1,
    decreases n,
{
    let ks = search::texts(p.keywords@);
    let a = place_all(start, p, nargs, pairs, n - 1)->Ok_0;
    let key = pairs[n - 1].0;
    lemma_placed_len(start, p, nargs, pairs, n - 1);
    lemma_keyword_is(ks, key, 0);
    assert(place_all(start, p, nargs, pairs, n) == place(a, p, nargs, key, pairs[n - 1].1));
    if k < n - 1 {
        lemma_placed_at(start, p, nargs, pairs, n - 1, k);
        lemma_keyword_is(ks, pairs[k].0, 0);
        if last_of_name(pairs, k, n) {
            assert(pairs[n - 1].0 != pairs[k].0);
            assert(last_of_name(pairs, k, n - 1));
        }
    }
}

proof fn lemma_placed_off(
    start: Seq<usize>,
    p: &PyArgParser,
    nargs: int,
    pairs: Seq<(Seq<char>, usize)>,
    n: int,
    s: int,
)
    requires
        0 <= n <= pairs.len(),
        0 <= s < start.len(),
        start.len() >= p.pos_only() + p.keywords@.len(),
        place_all(start, p, nargs, pairs, n) is Ok,
        forall|k: int| 0 <= k < n ==> s != slot_for(p, (#[trigger] pairs[k]).0),
    ensures
        place_all(start, p, nargs, pairs, n)->Ok_0[s] == start[s],
    decreases n,
{
    if n > 0 {
        lemma_placed_len(start, p, nargs, pairs, n - 1);
        lemma_placed_off(start, p, nargs, pairs, n - 1, s);
        lemma_keyword_is(search::texts(p.keywords@), pairs[n - 1].0, 0);
        assert(s != slot_for(p, pairs[n - 1].0));
    }
}

/// The call gives this name this value by keyword: in its dict, or in its tuple of names
/// with the value behind the positional arguments. Of several the last one counts.
pub open spec fn given(kw: KwInput, args: Seq<usize>, nargs: int, name: Seq<char>, v: usize) -> bool {
    match kw {
        KwInput::Dict(d) => exists|i: int|
            0 <= i < d@.len() && (#[trigger] d@[i]).0 is Str && d@[i].0->Str_0@ == name && d@[i].1
                == v && forall|q: int|
                i < q < d@.len() ==> (#[trigger] d@[q]).0->Str_0@ != name,
        KwInput::Names(d) => exists|i: int|
            0 <= i < d@.len() && #[trigger] d@[i] is Str && d@[i]->Str_0@ == name && args[nargs + i]
                == v && forall|q: int| i < q < d@.len() ==> (#[trigger] d@[q])->Str_0@ != name,
        _ => false,
    }
}

/// A value that is given by keyword is in the slot of the parameter of that name, whether
/// it came in a dict or behind a tuple of names.
pub proof fn law_keyword_arguments_arrive(
    args: Seq<usize>,
    nargs: int,
    kw: KwInput,
    p: &PyArgParser,
    minpos: int,
    maxpos: int,
    minkw: int,
    j: int,
    v: usize,
)
    requires
        unpack(args, nargs, kw, p, minpos, maxpos, minkw) is Ok,
        0 <= maxpos,
        0 <= j < p.keywords@.len(),
        forall|k: int| 0 <= k < j ==> (#[trigger] p.keywords@[k])@ != p.keywords@[j]@,
        given(kw, args, nargs, p.keywords@[j]@, v),
    ensures
        unpack(args, nargs, kw, p, minpos, maxpos, minkw)->Ok_0[p.pos_only() + j] == v,
{
    let pairs = kw_pairs(kw, args, nargs);
    let named = kw_named(pairs);
    let start = positional_slots(args, nargs, slot_count(p, maxpos));
    let ks = search::texts(p.keywords@);
    let name = p.keywords@[j]@;
    lemma_keyword_found(ks, name, 0, j);
    match kw {
        KwInput::Dict(d) => {
            let i = choose|i: int|
                0 <= i < d@.len() && (#[trigger] d@[i]).0 is Str && d@[i].0->Str_0@ == name
                    && d@[i].1 == v && forall|q: int|
                    i < q < d@.len() ==> (#[trigger] d@[q]).0->Str_0@ != name;
            assert(named[i] == (name, v));
            assert forall|q: int| i < q < named.len() implies (#[trigger] named[q]).0
                != named[i].0 by {
                assert(d@[q].0->Str_0@ != name);
            }
            assert(last_of_name(named, i, pairs.len() as int));
            lemma_placed_at(start, p, nargs, named, pairs.len() as int, i);
        },
        KwInput::Names(d) => {
            let i = choose|i: int|
                0 <= i < d@.len() && #[trigger] d@[i] is Str && d@[i]->Str_0@ == name
                    && args[nargs + i] == v && forall|q: int|
                    i < q < d@.len() ==> (#[trigger] d@[q])->Str_0@ != name;
            assert(named[i] == (name, v));
            assert forall|q: int| i < q < named.len() implies (#[trigger] named[q]).0
                != named[i].0 by {
                assert(d@[q]->Str_0@ != name);
            }
            assert(last_of_name(named, i, pairs.len() as int));
            lemma_placed_at(start, p, nargs, named, pairs.len() as int, i);
        },
        _ => {},
    }
}

/// A name occurs among the keyword arguments.
pub open spec fn mentions(kw: KwInput, name: Seq<char>) -> bool {
    match kw {
        KwInput::Dict(d) => exists|i: int|
            0 <= i < d@.len() && (#[trigger] d@[i]).0->Str_0@ == name,
        KwInput::Names(d) => exists|i: int| 0 <= i < d@.len() && (#[trigger] d@[i])->Str_0@ == name,
        _ => false,
    }
}

/// A parameter that is given neither by position nor by keyword is left empty, and there
/// is one slot for each parameter that the function has.
pub proof fn law_other_parameters_are_empty(
    args: Seq<usize>,
    nargs: int,
    kw: KwInput,
    p: &PyArgParser,
    minpos: int,
    maxpos: int,
    minkw: int,
    s: int,
)
    requires
        unpack(args, nargs, kw, p, minpos, maxpos, minkw) is Ok,
        0 <= nargs,
        0 <= maxpos,
        nargs <= s < unpack(args, nargs, kw, p, minpos, maxpos, minkw)->Ok_0.len(),
        forall|j: int|
            0 <= j < p.keywords@.len() && s == p.pos_only() + j ==> !mentions(
                kw,
                (#[trigger] p.keywords@[j])@,
            ),
    ensures
        unpack(args, nargs, kw, p, minpos, maxpos, minkw)->Ok_0[s] == 0,
        unpack(args, nargs, kw, p, minpos, maxpos, minkw)->Ok_0.len() >= p.pos_only()
            + p.keywords@.len(),
        unpack(args, nargs, kw, p, minpos, maxpos, minkw)->Ok_0.len() >= maxpos,
        unpack(args, nargs, kw, p, minpos, maxpos, minkw)->Ok_0.len() == p.pos_only()
            + p.keywords@.len() || unpack(args, nargs, kw, p, minpos, maxpos, minkw)->Ok_0.len()
            == maxpos,
{
    let pairs = kw_pairs(kw, args, nargs);
    let named = kw_named(pairs);
    let start = positional_slots(args, nargs, slot_count(p, maxpos));
    let ks = search::texts(p.keywords@);
    lemma_placed_len(start, p, nargs, named, pairs.len() as int);
    assert forall|k: int| 0 <= k < pairs.len() implies s != slot_for(p, (#[trigger] named[k]).0) by {
        lemma_placed_at(start, p, nargs, named, pairs.len() as int, k);
        lemma_keyword_is(ks, named[k].0, 0);
        let j = keyword_index(ks, named[k].0, 0);
        if s == p.pos_only() + j {
            assert(p.keywords@[j]@ == named[k].0);
            match kw {
                KwInput::Dict(d) => {
                    assert(d@[k].0->Str_0@ == named[k].0);
                },
                KwInput::Names(d) => {
                    assert(d@[k]->Str_0@ == named[k].0);
                },
                _ => {},
            }
        }
    }
    lemma_placed_off(start, p, nargs, named, pairs.len() as int, s);
}

/// A call with a name that the function does not have, or with a name that is no text,
/// is refused.
pub proof fn law_unknown_keywords_are_refused(
    args: Seq<usize>,
    nargs: int,
    kw: KwInput,
    p: &PyArgParser,
    minpos: int,
    maxpos: int,
    minkw: int,
    i: int,
)
    requires
        0 <= maxpos,
        match kw {
            KwInput::Dict(d) => 0 <= i < d@.len() && (d@[i].0 is Other || forall|j: int|
                0 <= j < p.keywords@.len() ==> (#[trigger] p.keywords@[j])@
                    != d@[i].0->Str_0@),
            KwInput::Names(d) => 0 <= i < d@.len() && (d@[i] is Other || forall|j: int|
                0 <= j < p.keywords@.len() ==> (#[trigger] p.keywords@[j])@ != d@[i]->Str_0@),
            _ => false,
        },
    ensures
        unpack(args, nargs, kw, p, minpos, maxpos, minkw) is Err,
{
    let pairs = kw_pairs(kw, args, nargs);
    let named = kw_named(pairs);
    let start = positional_slots(args, nargs, slot_count(p, maxpos));
    let ks = search::texts(p.keywords@);
    match kw {
        KwInput::Dict(d) => {
            assert(pairs[i] == d@[i]);
        },
        KwInput::Names(d) => {
            assert(pairs[i].0 == d@[i]);
        },
        _ => {},
    }
    if !(pairs[i].0 is Other) && place_all(start, p, nargs, named, pairs.len() as int) is Ok {
        lemma_placed_at(start, p, nargs, named, pairs.len() as int, i);
        lemma_keyword_is(ks, named[i].0, 0);
        let j = keyword_index(ks, named[i].0, 0);
        assert(p.keywords@[j]@ == named[i].0);
    }
}

/// Enough is given where unpacking succeeds: no positional parameter that is required is
/// empty, and there are no more positional arguments than the function takes.
pub proof fn law_required_arguments_are_there(
    args: Seq<usize>,
    nargs: int,
    kw: KwInput,
    p: &PyArgParser,
    minpos: int,
    maxpos: int,
    minkw: int,
    s: int,
)
    requires
        unpack(args, nargs, kw, p, minpos, maxpos, minkw) is Ok,
        0 <= s < minpos,
        s < unpack(args, nargs, kw, p, minpos, maxpos, minkw)->Ok_0.len(),
    ensures
        unpack(args, nargs, kw, p, minpos, maxpos, minkw)->Ok_0[s] != 0,
        nargs <= maxpos,
{
    let b = unpack(args, nargs, kw, p, minpos, maxpos, minkw)->Ok_0;
    lemma_filled_below(b, 0, s);
}

proof fn lemma_filled_below(b: Seq<usize>, i: int, s: int)
    requires
        0 <= i <= s < b.len(),
        empty_slot(b, i) > s,
    ensures
        b[s] != 0,
    decreases s - i,
{
    if i < s {
        lemma_filled_below(b, i + 1, s);
    }
}

/// The argument array of a vectorcall: the positional values, then the values
/// of the keyword arguments, whose names go into a tuple of their own.
#[derive(Debug)]
pub struct VectorCall {
    pub argv: Vec<usize>,
    /// Counts the positional values only.
    pub nargs: usize,
    /// `None` where there are no keyword arguments.
    pub kwnames: Option<Vec<Vec<char>>>,
}

/// The names of keyword arguments.
pub open spec fn kw_names(kw: Seq<(Vec<char>, usize)>) -> Seq<Seq<char>> {
    kw.map_values(|p: (Vec<char>, usize)| p.0@)
}

/// Lay out the arguments of a vectorcall. Each entry of the array, and the
/// tuple of names, is a reference to release after the call.
pub fn call_meth_method(args: &Vec<usize>, kwargs: &Vec<(Vec<char>, usize)>) -> (r: VectorCall)
    ensures
        r.argv@ == args@ + kwargs@.map_values(|p: (Vec<char>, usize)| p.1),
        r.nargs == args@.len(),
        kwargs@.len() == 0 ==> r.kwnames is None,
        kwargs@.len() > 0 ==> r.kwnames is Some && search::texts(r.kwnames->0@) == kw_names(
            kwargs@,
        ),
{
    let mut argv: Vec<usize> = Vec::new();
    let mut i: usize = 0;
    while i < args.len()
        invariant
            i <= args@.len(),
            argv@ == args@.subrange(0, i as int),
        decreases args.len() - i,
    {
        argv.push(args[i]);
        i = i + 1;
        assert(argv@ =~= args@.subrange(0, i as int));
    }
    assert(argv@ =~= args@);
    let mut names: Vec<Vec<char>> = Vec::new();
    let mut k: usize = 0;
    while k < kwargs.len()
        invariant
            k <= kwargs@.len(),
            argv@ == args@ + kwargs@.subrange(0, k as int).map_values(
                |p: (Vec<char>, usize)| p.1,
            ),
            search::texts(names@) == kw_names(kwargs@.subrange(0, k as int)),
        decreases kwargs.len() - k,
    {
        argv.push(kwargs[k].1);
        let ghost key = kwargs@[k as int].0@;
        assert(key.subrange(0, key.len() as int) =~= key);
        search::push_piece(
            &mut names,
            slice_of(kwargs[k].0.as_slice(), 0, kwargs[k].0.len()),
        );
        k = k + 1;
        assert(argv@ =~= args@ + kwargs@.subrange(0, k as int).map_values(
            |p: (Vec<char>, usize)| p.1,
        ));
        assert(search::texts(names@) =~= kw_names(kwargs@.subrange(0, k as int)));
    }
    assert(kwargs@.subrange(0, kwargs@.len() as int) =~= kwargs@);
    let kwnames: Option<Vec<Vec<char>>> = if kwargs.len() == 0 {
        None
    } else {
        Some(names)
    };
    VectorCall { argv, nargs: args.len(), kwnames }
}

/// A number of arguments is accepted exactly where it is neither too small nor too
/// large; no arguments are never too many. The message names the function, the
/// bound that is missed and the number.
pub proof fn law_number_of_arguments(name: Seq<char>, nargs: int, min: int, max: int)
    requires
        0 <= min <= max,
        0 <= nargs,
    ensures
        positional_check(Some(name), nargs, min, max) is None <==> min <= nargs <= max,
        nargs < min && min < max && min != 1 ==> positional_check(Some(name), nargs, min, max)
            == Some(
            name + "()"@ + " takes "@ + "at least "@ + text::dec(min) + " argument"@ + "s"@ + " ("@
                + text::dec(nargs) + " given)"@,
        ),
        nargs > max && min < max && max != 1 ==> positional_check(Some(name), nargs, min, max)
            == Some(
            name + "()"@ + " takes "@ + "at most "@ + text::dec(max) + " argument"@ + "s"@ + " ("@
                + text::dec(nargs) + " given)"@,
        ),
        nargs != min && min == max && min == 1 ==> positional_check(Some(name), nargs, min, max)
            == Some(
            name + "()"@ + " takes "@ + "exactly "@ + text::dec(1) + " argument"@ + ""@ + " ("@
                + text::dec(nargs) + " given)"@,
        ),
        nargs < min ==> positional_check(None, nargs, min, max) is Some,
{
}

/// The name is that of a parameter behind the positional arguments.
pub open spec fn still_open(p: &PyArgParser, nargs: int, name: Seq<char>) -> bool {
    exists|j: int|
        {
            &&& 0 <= j < p.keywords@.len()
            &&& (#[trigger] p.keywords@[j])@ == name
            &&& p.pos_only() + j >= nargs
            &&& forall|k: int| 0 <= k < j ==> (#[trigger] p.keywords@[k])@ != name
        }
}

proof fn lemma_all_placed(
    start: Seq<usize>,
    p: &PyArgParser,
    nargs: int,
    pairs: Seq<(Seq<char>, usize)>,
    n: int,
)
    requires
        0 <= n <= pairs.len(),
        forall|i: int| 0 <= i < pairs.len() ==> still_open(p, nargs, (#[trigger] pairs[i]).0),
    ensures
        place_all(start, p, nargs, pairs, n) is Ok,
    decreases n,
{
    if n > 0 {
        lemma_all_placed(start, p, nargs, pairs, n - 1);
        let name = pairs[n - 1].0;
        assert(still_open(p, nargs, name));
        let j = choose|j: int|
            {
                &&& 0 <= j < p.keywords@.len()
                &&& (#[trigger] p.keywords@[j])@ == name
                &&& p.pos_only() + j >= nargs
                &&& forall|k: int| 0 <= k < j ==> (#[trigger] p.keywords@[k])@ != name
            };
        let keys = search::texts(p.keywords@);
        assert forall|k: int| 0 <= k < j implies keys[k] != name by {
            assert(p.keywords@[k]@ != name);
        }
        lemma_keyword_found(keys, name, 0, j);
    }
}

proof fn lemma_none_empty(b: Seq<usize>, i: int, n: int)
    requires
        0 <= i <= n <= b.len(),
        forall|k: int| i <= k < n ==> #[trigger] b[k] != 0,
    ensures
        empty_slot(b, i) >= n,
    decreases n - i,
{
    if i < n {
        lemma_none_empty(b, i + 1, n);
    } else {
        lemma_empty_slot(b, i);
    }
}

/// A call is accepted where it has neither too few positional arguments nor too many, and
/// where each keyword names a parameter that no positional argument was given for.
pub proof fn law_arguments_are_accepted(
    args: Seq<usize>,
    nargs: int,
    kw: KwInput,
    p: &PyArgParser,
    minpos: int,
    maxpos: int,
    minkw: int,
)
    requires
        0 <= minpos <= nargs <= maxpos,
        nargs <= args.len(),
        forall|i: int| 0 <= i < nargs ==> #[trigger] args[i] != 0,
        match kw {
            KwInput::Dict(d) => minkw <= d@.len() && forall|i: int|
                0 <= i < d@.len() ==> (#[trigger] d@[i]).0 is Str && still_open(
                    p,
                    nargs,
                    d@[i].0->Str_0@,
                ),
            KwInput::Names(d) => minkw <= d@.len() && forall|i: int|
                0 <= i < d@.len() ==> #[trigger] d@[i] is Str && still_open(
                    p,
                    nargs,
                    d@[i]->Str_0@,
                ),
            _ => minkw <= 0,
        },
    ensures
        unpack(args, nargs, kw, p, minpos, maxpos, minkw) is Ok,
{
    let pairs = kw_pairs(kw, args, nargs);
    let named = kw_named(pairs);
    let start = positional_slots(args, nargs, slot_count(p, maxpos));
    assert forall|i: int| 0 <= i < pairs.len() implies !(pairs[i].0 is Other) && still_open(
        p,
        nargs,
        (#[trigger] named[i]).0,
    ) by {
        match kw {
            KwInput::Dict(d) => {
                assert(d@[i].0 is Str);
            },
            KwInput::Names(d) => {
                assert(d@[i] is Str);
            },
            _ => {},
        }
    }
    assert forall|i: int| 0 <= i < pairs.len() implies !(pairs[i].0 is Other) by {
        assert(still_open(p, nargs, named[i].0));
    }
    lemma_all_placed(start, p, nargs, named, pairs.len() as int);
    let b = place_all(start, p, nargs, named, pairs.len() as int)->Ok_0;
    lemma_placed_len(start, p, nargs, named, pairs.len() as int);
    assert forall|i: int| 0 <= i < nargs implies #[trigger] b[i] != 0 by {
        assert(args[i] != 0);
        lemma_place_keeps(start, p, nargs, named, pairs.len() as int, i);
    }
    lemma_none_empty(b, 0, minpos);
}

/// A call with too many positional arguments is refused, and so is one with too few and no
/// keywords.
pub proof fn law_wrong_numbers_are_refused(
    args: Seq<usize>,
    nargs: int,
    kw: KwInput,
    p: &PyArgParser,
    minpos: int,
    maxpos: int,
    minkw: int,
)
    ensures
        nargs > maxpos ==> unpack(args, nargs, kw, p, minpos, maxpos, minkw) is Err,
        nargs < minpos && kw is Absent ==> unpack(args, nargs, kw, p, minpos, maxpos, minkw) is Err,
        kw is Absent && minkw > 0 ==> unpack(args, nargs, kw, p, minpos, maxpos, minkw) is Err,
{
}

/// A keyword that names no parameter is refused by its name; one whose parameter was given
/// by position is refused by its name and that position, counted from one.
pub proof fn law_refused_keyword(
    buf: Seq<usize>,
    p: &PyArgParser,
    nargs: int,
    key: Seq<char>,
    v: usize,
    j: int,
)
    ensures
        (forall|k: int| 0 <= k < p.keywords@.len() ==> (#[trigger] p.keywords@[k])@ != key)
            ==> place(buf, p, nargs, key, v) == Err::<Seq<usize>, Seq<char>>(
            "'"@ + key + "' is an invalid keyword argument for "@ + p.name() + "()"@,
        ),
        0 <= j < p.keywords@.len() && p.keywords@[j]@ == key && (forall|k: int|
            0 <= k < j ==> (#[trigger] p.keywords@[k])@ != key) && p.pos_only() + j < nargs
            && buf[p.pos_only() + j] != 0 ==> place(buf, p, nargs, key, v) == Err::<
            Seq<usize>,
            Seq<char>,
        >(
            "argument for "@ + p.name() + "() given by name ('"@ + key + "') and position ("@
                + text::dec(p.pos_only() + j + 1) + ")"@,
        ),
{
    let keys = search::texts(p.keywords@);
    lemma_keyword_is(keys, key, 0);
    let i = keyword_index(keys, key, 0);
    if i < keys.len() {
        assert(p.keywords@[i]@ == key);
    }
    if 0 <= j < p.keywords@.len() && p.keywords@[j]@ == key && (forall|k: int|
        0 <= k < j ==> (#[trigger] p.keywords@[k])@ != key) {
        assert forall|k: int| 0 <= k < j implies keys[k] != key by {
            assert(p.keywords@[k]@ != key);
        }
        lemma_keyword_found(keys, key, 0, j);
    }
}

/// A wrong number of positional arguments is refused by the bound that it misses.
pub proof fn law_refused_number(
    args: Seq<usize>,
    nargs: int,
    kw: KwInput,
    p: &PyArgParser,
    minpos: int,
    maxpos: int,
    minkw: int,
)
    ensures
        nargs > maxpos && maxpos != 1 ==> unpack(args, nargs, kw, p, minpos, maxpos, minkw) == Err::<
            Seq<usize>,
            Seq<char>,
        >(
            p.name() + "() takes "@ + "at most "@ + text::dec(maxpos) + " positional argument"@
                + "s"@ + " ("@ + text::dec(nargs) + " given)"@,
        ),
        nargs <= maxpos && nargs < minpos && minpos != 1 && kw is Absent ==> unpack(
            args,
            nargs,
            kw,
            p,
            minpos,
            maxpos,
            minkw,
        ) == Err::<Seq<usize>, Seq<char>>(
            p.name() + "() takes "@ + "at least "@ + text::dec(minpos) + " positional argument"@
                + "s"@ + " ("@ + text::dec(nargs) + " given)"@,
        ),
{
}

} // verus!
