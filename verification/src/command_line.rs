//! What a start of the emulator is told: which function to run, and where modules lie.
use vstd::prelude::*;
use crate::util::text;
use crate::util::text::{blank, str_eq, trim};

verus! {

/// The module that runs where none is named.
pub const DEFAULT_MODULE: &'static str = "test2";

/// The function that runs where none is named.
pub const DEFAULT_FUNCTION: &'static str = "test";

/// Where modules are looked for first.
pub const FIRST_PATH: &'static str = "priv/";

/// The module and the function that arguments name, given those that were named before. An
/// option takes the argument behind it, whatever that is; one at the very end takes nothing.
pub open spec fn named(args: Seq<Seq<char>>, so_far: (Seq<char>, Seq<char>)) -> (
    Seq<char>,
    Seq<char>,
)
    decreases args.len(),
{
    if args.len() == 0 {
        so_far
    } else if args[0] == "-m"@ {
        if args.len() == 1 {
            so_far
        } else {
            named(args.skip(2), (args[1], so_far.1))
        }
    } else if args[0] == "-f"@ {
        if args.len() == 1 {
            so_far
        } else {
            named(args.skip(2), (so_far.0, args[1]))
        }
    } else {
        named(args.skip(1), so_far)
    }
}

/// The arguments behind the first, which is the name of the program.
pub open spec fn behind_first(args: Seq<Seq<char>>) -> Seq<Seq<char>> {
    if args.len() == 0 {
        args
    } else {
        args.skip(1)
    }
}

/// The module and the function that the arguments of a start name. The first argument is the
/// name of the program.
pub fn entry_point(args: &Vec<String>) -> (r: (String, String))
    ensures
        (r.0@, r.1@) == named(
            behind_first(text::strings_view(args@)),
            (DEFAULT_MODULE@, DEFAULT_FUNCTION@),
        ),
{
    let mut module: String = DEFAULT_MODULE.to_owned();
    let mut function: String = DEFAULT_FUNCTION.to_owned();
    let ghost all = text::strings_view(args@);
    let ghost goal = named(behind_first(all), (DEFAULT_MODULE@, DEFAULT_FUNCTION@));
    if args.len() == 0 {
        return (module, function);
    }
    let mut i: usize = 1;
    while i < args.len()
        invariant
            1 <= i <= args@.len(),
            all == text::strings_view(args@),
            goal == named(behind_first(all), (DEFAULT_MODULE@, DEFAULT_FUNCTION@)),
            named(all.skip(i as int), (module@, function@)) == goal,
        decreases args@.len() - i,
    {
        let ghost here = all.skip(i as int);
        assert(here[0] == args@[i as int]@);
        assert(here.skip(1) =~= all.skip(i + 1));
        let arg: &str = args[i].as_str();
        let is_module: bool = str_eq(arg, "-m");
        let is_function: bool = str_eq(arg, "-f");
        if is_module || is_function {
            if args.len() - i == 1 {
                return (module, function);
            }
            assert(here[1] == args@[i + 1]@);
            assert(here.skip(2) =~= all.skip(i + 2));
            let val: String = args[i + 1].clone();
            if is_module {
                module = val;
            } else {
                function = val;
            }
            i += 2;
        } else {
            i += 1;
        }
    }
    assert(all.skip(i as int).len() == 0);
    (module, function)
}

/// The paths among some that are more than white space, without the white space around them.
pub open spec fn trimmed(paths: Seq<Seq<char>>) -> Seq<Seq<char>>
    decreases paths.len(),
{
    if paths.len() == 0 {
        Seq::empty()
    } else {
        let before = trimmed(paths.drop_last());
        if text::is_blank(paths.last()) {
            before
        } else {
            before.push(text::trimmed(paths.last()))
        }
    }
}

/// Takes the white space from around paths, and leaves out those that are nothing else.
pub fn read_path_list(paths: &Vec<String>) -> (r: Vec<String>)
    ensures
        text::strings_view(r@) == trimmed(text::strings_view(paths@)),
{
    let mut out: Vec<String> = Vec::new();
    let ghost all = text::strings_view(paths@);
    let mut i: usize = 0;
    assert(all.take(0) =~= Seq::<Seq<char>>::empty());
    assert(text::strings_view(out@) =~= Seq::<Seq<char>>::empty());
    while i < paths.len()
        invariant
            i <= paths@.len(),
            all == text::strings_view(paths@),
            text::strings_view(out@) == trimmed(all.take(i as int)),
        decreases paths@.len() - i,
    {
        let ghost now = all.take(i + 1);
        assert(now.drop_last() =~= all.take(i as int));
        assert(now.last() == paths@[i as int]@);
        if !blank(paths[i].as_str()) {
            let ghost was = out@;
            let p: String = trim(paths[i].as_str());
            let ghost pv = p@;
            out.push(p);
            assert(text::strings_view(out@) =~= text::strings_view(was).push(pv));
        }
        i += 1;
    }
    assert(all.take(i as int) =~= all);
    out
}

/// Where modules are looked for, in order.
pub open spec fn search_path(
    stdlib: Option<Seq<char>>,
    beam_paths: Seq<Seq<char>>,
    erl_libs: Seq<Seq<char>>,
) -> Seq<Seq<char>> {
    let own = match stdlib {
        Some(p) => trimmed(seq![p]),
        None => Seq::empty(),
    };
    seq![FIRST_PATH@] + own + trimmed(beam_paths) + trimmed(erl_libs)
}

fn add_all(out: &mut Vec<String>, more: Vec<String>)
    ensures
        text::strings_view(final(out)@) == text::strings_view(old(out)@) + text::strings_view(more@),
{
    let ghost was = text::strings_view(out@);
    let ghost all = text::strings_view(more@);
    let mut i: usize = 0;
    assert(was + all.take(0) =~= was);
    while i < more.len()
        invariant
            i <= more@.len(),
            all == text::strings_view(more@),
            was == text::strings_view(old(out)@),
            text::strings_view(out@) == was + all.take(i as int),
        decreases more@.len() - i,
    {
        let ghost had = out@;
        out.push(more[i].clone());
        assert(text::strings_view(out@) =~= text::strings_view(had).push(more@[i as int]@));
        assert(was + all.take(i + 1) =~= (was + all.take(i as int)).push(all[i as int]));
        i += 1;
    }
    assert(all.take(i as int) =~= all);
}

/// Where modules are looked for: a place of their own first, then the standard library where it
/// is said to lie somewhere, then the paths of two lists.
pub fn default_search_path(
    stdlib: Option<&str>,
    beam_paths: &Vec<String>,
    erl_libs: &Vec<String>,
) -> (r: Vec<String>)
    ensures
        text::strings_view(r@) == search_path(
            match stdlib {
                Some(p) => Some(p@),
                None => None,
            },
            text::strings_view(beam_paths@),
            text::strings_view(erl_libs@),
        ),
{
    let mut out: Vec<String> = Vec::new();
    out.push(FIRST_PATH.to_owned());
    assert(text::strings_view(out@) =~= seq![FIRST_PATH@]);
    let mut own: Vec<String> = Vec::new();
    if let Some(p) = stdlib {
        own.push(p.to_owned());
        assert(text::strings_view(own@) =~= seq![p@]);
    } else {
        assert(text::strings_view(own@) =~= Seq::<Seq<char>>::empty());
    }
    let own: Vec<String> = read_path_list(&own);
    add_all(&mut out, own);
    add_all(&mut out, read_path_list(beam_paths));
    add_all(&mut out, read_path_list(erl_libs));
    out
}

proof fn lemma_front_stays(s: Seq<char>)
    requires
        !text::is_blank(s),
    ensures
        !text::is_blank(text::trim_front(s)),
    decreases s.len(),
{
    if s.len() > 0 && text::is_white(s[0]) {
        let i = choose|i: int| 0 <= i < s.len() && !text::is_white(#[trigger] s[i]);
        assert(s.drop_first()[i - 1] == s[i]);
        lemma_front_stays(s.drop_first());
    }
}

proof fn lemma_back_stays(s: Seq<char>)
    requires
        !text::is_blank(s),
    ensures
        !text::is_blank(text::trim_back(s)),
    decreases s.len(),
{
    if s.len() > 0 && text::is_white(s.last()) {
        let i = choose|i: int| 0 <= i < s.len() && !text::is_white(#[trigger] s[i]);
        assert(s.drop_last()[i] == s[i]);
        lemma_back_stays(s.drop_last());
    }
}

proof fn lemma_trimmed(paths: Seq<Seq<char>>)
    ensures
        trimmed(paths).len() <= paths.len(),
        forall|i: int| 0 <= i < trimmed(paths).len() ==> !text::is_blank(#[trigger] trimmed(paths)[i]),
    decreases paths.len(),
{
    if paths.len() > 0 {
        lemma_trimmed(paths.drop_last());
        if !text::is_blank(paths.last()) {
            lemma_front_stays(paths.last());
            lemma_back_stays(text::trim_front(paths.last()));
        }
    }
}

/// Modules are looked for in the first place before all others, and no other place is empty or
/// white space alone.
pub proof fn law_paths_are_clean(
    stdlib: Option<Seq<char>>,
    beam_paths: Seq<Seq<char>>,
    erl_libs: Seq<Seq<char>>,
)
    ensures
        search_path(stdlib, beam_paths, erl_libs)[0] == FIRST_PATH@,
        search_path(stdlib, beam_paths, erl_libs).len() <= 2 + beam_paths.len() + erl_libs.len(),
        forall|i: int|
            1 <= i < search_path(stdlib, beam_paths, erl_libs).len() ==> !text::is_blank(
                #[trigger] search_path(stdlib, beam_paths, erl_libs)[i],
            ),
{
    lemma_trimmed(beam_paths);
    lemma_trimmed(erl_libs);
    let own = match stdlib {
        Some(p) => trimmed(seq![p]),
        None => Seq::empty(),
    };
    if let Some(p) = stdlib {
        lemma_trimmed(seq![p]);
    }
    let all = search_path(stdlib, beam_paths, erl_libs);
    let b = trimmed(beam_paths);
    let e = trimmed(erl_libs);
    assert forall|i: int| 1 <= i < all.len() implies !text::is_blank(#[trigger] all[i]) by {
        if i < 1 + own.len() {
            assert(all[i] == own[i - 1]);
        } else if i < 1 + own.len() + b.len() {
            assert(all[i] == b[i - 1 - own.len()]);
        } else {
            assert(all[i] == e[i - 1 - own.len() - b.len()]);
        }
    }
}

/// The argument behind `-m` names the module, and the one behind `-f` the function; of several the
/// last counts, and other arguments name nothing.
pub proof fn law_options_name(rest: Seq<Seq<char>>, a: Seq<char>, was: (Seq<char>, Seq<char>))
    ensures
        named(seq!["-m"@, a] + rest, was) == named(rest, (a, was.1)),
        named(seq!["-f"@, a] + rest, was) == named(rest, (was.0, a)),
        a != "-m"@ && a != "-f"@ ==> named(seq![a] + rest, was) == named(rest, was),
        named(Seq::empty(), was) == was,
{
    reveal_strlit("-m");
    reveal_strlit("-f");
    assert("-m"@[1] == 'm' && "-f"@[1] == 'f');
    let m = seq!["-m"@, a] + rest;
    let f = seq!["-f"@, a] + rest;
    let o = seq![a] + rest;
    assert(m[0] == "-m"@ && m[1] == a);
    assert(f[0] == "-f"@ && f[1] == a);
    assert(o[0] == a);
    assert(m.skip(2) =~= rest);
    assert(f.skip(2) =~= rest);
    assert(o.skip(1) =~= rest);
}

/// Paths keep their order and lose only the white space around them; those that are nothing else
/// are left out.
pub proof fn law_paths_kept_in_order(paths: Seq<Seq<char>>)
    ensures
        trimmed(paths) == paths.filter(|p: Seq<char>| !text::is_blank(p)).map_values(
            |p: Seq<char>| text::trimmed(p),
        ),
    decreases paths.len(),
{
    reveal(Seq::filter);
    let f = |p: Seq<char>| !text::is_blank(p);
    let g = |p: Seq<char>| text::trimmed(p);
    if paths.len() > 0 {
        law_paths_kept_in_order(paths.drop_last());
    }
    assert(trimmed(paths) =~= paths.filter(f).map_values(g));
}

/// Modules are looked for in the library first, then in the paths for modules, then in those for
/// libraries.
pub proof fn law_search_order(
    stdlib: Seq<char>,
    beam_paths: Seq<Seq<char>>,
    erl_libs: Seq<Seq<char>>,
)
    requires
        !text::is_blank(stdlib),
    ensures
        search_path(Some(stdlib), beam_paths, erl_libs) == seq![
            FIRST_PATH@,
            text::trimmed(stdlib),
        ] + trimmed(beam_paths) + trimmed(erl_libs),
        search_path(None, beam_paths, erl_libs) == seq![FIRST_PATH@] + trimmed(beam_paths) + trimmed(
            erl_libs,
        ),
{
    reveal_with_fuel(trimmed, 2);
    let one = seq![stdlib];
    assert(one.drop_last() =~= Seq::<Seq<char>>::empty());
    assert(trimmed(one) =~= seq![text::trimmed(stdlib)]);
    assert(search_path(Some(stdlib), beam_paths, erl_libs) =~= seq![
        FIRST_PATH@,
        text::trimmed(stdlib),
    ] + trimmed(beam_paths) + trimmed(erl_libs));
    assert(search_path(None, beam_paths, erl_libs) =~= seq![FIRST_PATH@] + trimmed(beam_paths)
        + trimmed(erl_libs));
}

} // verus!
