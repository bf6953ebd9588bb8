//! What the command line asks for, told by its arguments.
use crate::cli;
use crate::cli::{Options, OptionsView};
use crate::text;
use vstd::prelude::*;

verus! {

/// Whether an argument is the value of a `--base` before it.
pub open spec fn is_value(args: Seq<Seq<char>>, i: int) -> bool
    decreases i,
{
    i > 0 && args[i - 1] == "--base"@ && !is_value(args, i - 1)
}

/// Whether an argument asks to follow the links.
pub open spec fn is_flag(args: Seq<Seq<char>>, i: int) -> bool {
    !is_value(args, i) && args[i] == "--check-links"@
}

/// Whether an argument names a revision, or says that the next one does.
pub open spec fn is_base(args: Seq<Seq<char>>, i: int) -> bool {
    !is_value(args, i) && (args[i] == "--base"@ || "--base="@.is_prefix_of(args[i]))
}

/// The revision that is named.
pub open spec fn base_value(args: Seq<Seq<char>>, i: int) -> Seq<char> {
    if args[i] == "--base"@ {
        args[i + 1]
    } else {
        args[i].skip("--base="@.len() as int)
    }
}

/// Whether an argument names a file: anything that is nothing else.
pub open spec fn is_file(args: Seq<Seq<char>>, i: int) -> bool {
    !is_value(args, i) && !is_flag(args, i) && !is_base(args, i)
}

/// Whether the last argument is a `--base` without a value.
pub open spec fn lacks_value(args: Seq<Seq<char>>) -> bool {
    args.len() > 0 && !is_value(args, args.len() - 1) && args.last() == "--base"@
}

/// What the arguments ask for.
pub open spec fn asked(args: Seq<Seq<char>>) -> Result<OptionsView, Seq<char>> {
    cli::options_from(args, 0, cli::no_options())
}

/// The names of the options differ.
proof fn lemma_names_differ()
    ensures
        "--check-links"@ != "--base"@,
        !"--base="@.is_prefix_of("--check-links"@),
        !"--base="@.is_prefix_of("--base"@),
        "--base="@.len() == 7,
{
    reveal_strlit("--check-links");
    reveal_strlit("--base");
    reveal_strlit("--base=");
    assert("--check-links"@[2] == 'c');
    assert("--base"@[2] == 'b');
    assert("--base="@[2] == 'b');
    if "--base="@.is_prefix_of("--check-links"@) {
        assert("--check-links"@.subrange(0, 7)[2] == 'c');
    }
}

/// How reading goes on from an argument that is no value.
proof fn lemma_step(args: Seq<Seq<char>>, i: int, so_far: OptionsView) -> (next: (int, OptionsView))
    requires
        0 <= i < args.len(),
        !is_value(args, i),
        !(is_base(args, i) && args[i] == "--base"@ && i + 1 == args.len()),
        !(is_file(args, i) && so_far.readme is Some),
    ensures
        i < next.0 <= args.len(),
        next.0 <= i + 2,
        next.0 == i + 2 ==> is_value(args, i + 1),
        !is_value(args, next.0),
        cli::options_from(args, i, so_far) == cli::options_from(args, next.0, next.1),
        next.1.check_links == (so_far.check_links || is_flag(args, i)),
        next.1.readme == (if is_file(args, i) {
            Some(args[i])
        } else {
            so_far.readme
        }),
        next.1.base == (if is_base(args, i) {
            Some(base_value(args, i))
        } else {
            so_far.base
        }),
{
    lemma_names_differ();
    if args[i] == "--check-links"@ {
        (i + 1, OptionsView { check_links: true, ..so_far })
    } else if args[i] == "--base"@ {
        assert(is_value(args, i + 1));
        assert(!is_value(args, i + 2));
        (i + 2, OptionsView { base: Some(args[i + 1]), ..so_far })
    } else if "--base="@.is_prefix_of(args[i]) {
        (i + 1, OptionsView { base: Some(args[i].skip(7)), ..so_far })
    } else {
        (i + 1, OptionsView { readme: Some(args[i]), ..so_far })
    }
}

/// Where reading stops at once.
proof fn lemma_stop(args: Seq<Seq<char>>, i: int, so_far: OptionsView)
    requires
        0 <= i < args.len(),
        !is_value(args, i),
    ensures
        is_base(args, i) && args[i] == "--base"@ && i + 1 == args.len() ==> cli::options_from(
            args,
            i,
            so_far,
        ) == Err::<OptionsView, Seq<char>>("--base requires a value"@),
        is_file(args, i) && so_far.readme is Some ==> cli::options_from(args, i, so_far) == Err::<
            OptionsView,
            Seq<char>,
        >("unexpected argument '"@ + args[i] + "'"@),
{
    lemma_names_differ();
}

/// Whether reading stops at this argument.
spec fn stops(args: Seq<Seq<char>>, i: int, so_far: OptionsView) -> bool {
    (is_base(args, i) && args[i] == "--base"@ && i + 1 == args.len()) || (is_file(args, i)
        && so_far.readme is Some)
}

proof fn lemma_flags(args: Seq<Seq<char>>, i: int, so_far: OptionsView)
    requires
        0 <= i <= args.len(),
        !is_value(args, i),
    ensures
        cli::options_from(args, i, so_far) matches Ok(o) ==> (o.check_links <==> (
        so_far.check_links || exists|j: int| i <= j < args.len() && #[trigger] is_flag(args, j))),
    decreases args.len() - i,
{
    if i < args.len() {
        lemma_stop(args, i, so_far);
        if !stops(args, i, so_far) {
            let (k, next) = lemma_step(args, i, so_far);
            lemma_flags(args, k, next);
            if exists|j: int| i <= j < args.len() && #[trigger] is_flag(args, j) {
                let j = choose|j: int| i <= j < args.len() && #[trigger] is_flag(args, j);
                assert(j == i || j >= k);
            }
        }
    }
}

proof fn lemma_files(args: Seq<Seq<char>>, i: int, so_far: OptionsView)
    requires
        0 <= i <= args.len(),
        !is_value(args, i),
    ensures
        cli::options_from(args, i, so_far) matches Ok(o) ==> {
            &&& so_far.readme is Some ==> o.readme == so_far.readme && forall|j: int|
                i <= j < args.len() ==> !#[trigger] is_file(args, j)
            &&& so_far.readme is None && o.readme is None ==> forall|j: int|
                i <= j < args.len() ==> !#[trigger] is_file(args, j)
            &&& so_far.readme is None && o.readme is Some ==> exists|p: int|
                i <= p < args.len() && #[trigger] is_file(args, p) && o.readme == Some(args[p])
                    && forall|j: int|
                    i <= j < args.len() && j != p ==> !#[trigger] is_file(args, j)
        },
    decreases args.len() - i,
{
    if i < args.len() {
        lemma_stop(args, i, so_far);
        if !stops(args, i, so_far) {
            let (k, next) = lemma_step(args, i, so_far);
            lemma_files(args, k, next);
            match cli::options_from(args, i, so_far) {
                Ok(o) => {
                    assert forall|j: int| i < j < k implies !#[trigger] is_file(args, j) by {}
                    if is_file(args, i) {
                        assert(o.readme == Some(args[i]));
                    } else if so_far.readme is None && o.readme is Some {
                        let p = choose|p: int|
                            k <= p < args.len() && #[trigger] is_file(args, p) && o.readme == Some(
                                args[p],
                            ) && forall|j: int|
                                k <= j < args.len() && j != p ==> !#[trigger] is_file(args, j);
                        assert(is_file(args, p));
                    }
                },
                Err(_) => {},
            }
        }
    }
}

proof fn lemma_bases(args: Seq<Seq<char>>, i: int, so_far: OptionsView)
    requires
        0 <= i <= args.len(),
        !is_value(args, i),
    ensures
        cli::options_from(args, i, so_far) matches Ok(o) ==> {
            &&& (forall|j: int| i <= j < args.len() ==> !#[trigger] is_base(args, j)) ==> o.base
                == so_far.base
            &&& forall|b: int|
                i <= b < args.len() && #[trigger] is_base(args, b) && (forall|j: int|
                    b < j < args.len() ==> !#[trigger] is_base(args, j)) ==> o.base == Some(
                    base_value(args, b),
                )
        },
    decreases args.len() - i,
{
    if i < args.len() {
        lemma_stop(args, i, so_far);
        if !stops(args, i, so_far) {
            let (k, next) = lemma_step(args, i, so_far);
            lemma_bases(args, k, next);
            match cli::options_from(args, i, so_far) {
                Ok(o) => {
                    assert forall|b: int|
                        i <= b < args.len() && #[trigger] is_base(args, b) && (forall|j: int|
                            b < j < args.len() ==> !#[trigger] is_base(args, j)) implies o.base
                        == Some(base_value(args, b)) by {
                        assert(b == i || b >= k);
                    }
                },
                Err(_) => {},
            }
        }
    }
}

proof fn lemma_refused(args: Seq<Seq<char>>, i: int, so_far: OptionsView)
    requires
        0 <= i <= args.len(),
        !is_value(args, i),
    ensures
        cli::options_from(args, i, so_far) is Ok && i < args.len() ==> !lacks_value(args),
        cli::options_from(args, i, so_far) matches Err(m) ==> {
            ||| {
                &&& lacks_value(args)
                &&& m == "--base requires a value"@
                &&& so_far.readme is Some ==> forall|j: int|
                    i <= j < args.len() ==> !#[trigger] is_file(args, j)
                &&& forall|p: int, q: int|
                    i <= p < q < args.len() ==> !(#[trigger] is_file(args, p) && #[trigger] is_file(
                        args,
                        q,
                    ))
            }
            ||| exists|q: int|
                i <= q < args.len() && #[trigger] is_file(args, q) && m == "unexpected argument '"@
                    + args[q] + "'"@ && (so_far.readme is Some ==> forall|j: int|
                    i <= j < q ==> !#[trigger] is_file(args, j)) && (so_far.readme is None
                    ==> exists|p: int|
                    i <= p < q && #[trigger] is_file(args, p) && forall|j: int|
                        i <= j < q && j != p ==> !#[trigger] is_file(args, j))
        },
    decreases args.len() - i,
{
    if i < args.len() {
        lemma_stop(args, i, so_far);
        if stops(args, i, so_far) {
            if is_file(args, i) && so_far.readme is Some {
                assert(is_file(args, i));
            } else {
                assert(args.last() == "--base"@);
                assert forall|j: int| i <= j < args.len() implies !#[trigger] is_file(args, j) by {}
            }
        } else {
            let (k, next) = lemma_step(args, i, so_far);
            lemma_refused(args, k, next);
            assert forall|j: int| i < j < k implies !#[trigger] is_file(args, j) by {}
            match cli::options_from(args, i, so_far) {
                Ok(_) => {
                    if lacks_value(args) {
                        assert(k == args.len());
                        if k == i + 1 {
                            lemma_names_differ();
                            assert(is_base(args, i));
                        }
                    }
                },
                Err(m) => {
                    if exists|q: int|
                        k <= q < args.len() && #[trigger] is_file(args, q) && m
                            == "unexpected argument '"@ + args[q] + "'"@ && (next.readme is Some
                            ==> forall|j: int| k <= j < q ==> !#[trigger] is_file(args, j)) && (
                        next.readme is None ==> exists|p: int|
                            k <= p < q && #[trigger] is_file(args, p) && forall|j: int|
                                k <= j < q && j != p ==> !#[trigger] is_file(args, j)) {
                        let q = choose|q: int|
                            k <= q < args.len() && #[trigger] is_file(args, q) && m
                                == "unexpected argument '"@ + args[q] + "'"@ && (next.readme is Some
                                ==> forall|j: int| k <= j < q ==> !#[trigger] is_file(args, j)) && (
                            next.readme is None ==> exists|p: int|
                                k <= p < q && #[trigger] is_file(args, p) && forall|j: int|
                                    k <= j < q && j != p ==> !#[trigger] is_file(args, j));
                        assert(is_file(args, q));
                        if so_far.readme is None {
                            if next.readme is Some {
                                assert(is_file(args, i));
                                assert forall|j: int| i <= j < q && j != i implies !#[trigger] is_file(
                                    args,
                                    j,
                                ) by {}
                            } else {
                                let p = choose|p: int|
                                    k <= p < q && #[trigger] is_file(args, p) && forall|j: int|
                                        k <= j < q && j != p ==> !#[trigger] is_file(args, j);
                                assert(is_file(args, p));
                                assert forall|j: int| i <= j < q && j != p implies !#[trigger] is_file(
                                    args,
                                    j,
                                ) by {}
                            }
                        }
                    } else {
                        assert forall|p: int, q: int| i <= p < q < args.len() implies !(
                        #[trigger] is_file(args, p) && #[trigger] is_file(args, q)) by {
                            if is_file(args, p) && is_file(args, q) {
                                assert(q >= k);
                                if p == i {
                                    assert(next.readme is Some);
                                }
                            }
                        }
                    }
                },
            }
        }
    }
}

/// The links are followed exactly where some argument says so, wherever it stands:
/// before or behind the file and the revision, but not as the value of `--base`.
pub proof fn flag_counts_wherever_it_stands(args: Seq<Seq<char>>)
    ensures
        asked(args) matches Ok(o) ==> (o.check_links <==> exists|i: int|
            0 <= i < args.len() && #[trigger] is_flag(args, i)),
{
    lemma_flags(args, 0, cli::no_options());
}

/// The file is the one argument that is no option and no value, wherever it stands.
pub proof fn file_is_the_other_argument(args: Seq<Seq<char>>)
    ensures
        asked(args) matches Ok(o) ==> {
            &&& forall|i: int|
                0 <= i < args.len() && #[trigger] is_file(args, i) ==> o.readme == Some(args[i])
                    && forall|j: int|
                    0 <= j < args.len() && j != i ==> !#[trigger] is_file(args, j)
            &&& (forall|i: int| 0 <= i < args.len() ==> !#[trigger] is_file(args, i))
                ==> o.readme is None
        },
{
    lemma_files(args, 0, cli::no_options());
    match asked(args) {
        Ok(o) => {
            if o.readme is Some {
                let p = choose|p: int|
                    0 <= p < args.len() && #[trigger] is_file(args, p) && o.readme == Some(args[p])
                        && forall|j: int|
                        0 <= j < args.len() && j != p ==> !#[trigger] is_file(args, j);
                assert forall|i: int| 0 <= i < args.len() && #[trigger] is_file(
                    args,
                    i,
                ) implies o.readme == Some(args[i]) && forall|j: int|
                    0 <= j < args.len() && j != i ==> !#[trigger] is_file(args, j) by {
                    assert(i == p);
                }
            }
        },
        Err(_) => {},
    }
}

/// The revision is the one that is named last, in one argument or in two.
pub proof fn last_base_counts(args: Seq<Seq<char>>)
    ensures
        asked(args) matches Ok(o) ==> {
            &&& (forall|j: int| 0 <= j < args.len() ==> !#[trigger] is_base(args, j))
                ==> o.base is None
            &&& forall|b: int|
                0 <= b < args.len() && #[trigger] is_base(args, b) && (forall|j: int|
                    b < j < args.len() ==> !#[trigger] is_base(args, j)) ==> o.base == Some(
                    base_value(args, b),
                )
        },
{
    lemma_bases(args, 0, cli::no_options());
}

/// Arguments are refused exactly where a second file is named, or else where a
/// `--base` at the end has no value; the message tells which.
pub proof fn bad_arguments_are_refused(args: Seq<Seq<char>>)
    ensures
        asked(args) is Ok <==> !lacks_value(args) && forall|p: int, q: int|
            0 <= p < q < args.len() ==> !(#[trigger] is_file(args, p) && #[trigger] is_file(args, q)),
        forall|q: int|
            0 <= q < args.len() && #[trigger] is_file(args, q) && (exists|p: int|
                0 <= p < q && #[trigger] is_file(args, p) && forall|j: int|
                    0 <= j < q && j != p ==> !#[trigger] is_file(args, j)) ==> asked(args) == Err::<
                OptionsView,
                Seq<char>,
            >("unexpected argument '"@ + args[q] + "'"@),
        lacks_value(args) && (forall|p: int, q: int|
            0 <= p < q < args.len() ==> !(#[trigger] is_file(args, p) && #[trigger] is_file(
                args,
                q,
            ))) ==> asked(args) == Err::<OptionsView, Seq<char>>("--base requires a value"@),
{
    lemma_refused(args, 0, cli::no_options());
    lemma_files(args, 0, cli::no_options());
    file_is_the_other_argument(args);
    let single = forall|p: int, q: int|
        0 <= p < q < args.len() ==> !(#[trigger] is_file(args, p) && #[trigger] is_file(args, q));
    match asked(args) {
        Ok(o) => {
            assert(single);
            assert(!lacks_value(args));
        },
        Err(m) => {
            if exists|q: int|
                0 <= q < args.len() && #[trigger] is_file(args, q) && m == "unexpected argument '"@
                    + args[q] + "'"@ && exists|p: int|
                    0 <= p < q && #[trigger] is_file(args, p) && forall|j: int|
                        0 <= j < q && j != p ==> !#[trigger] is_file(args, j) {
                let q = choose|q: int|
                    0 <= q < args.len() && #[trigger] is_file(args, q) && m
                        == "unexpected argument '"@ + args[q] + "'"@ && exists|p: int|
                        0 <= p < q && #[trigger] is_file(args, p) && forall|j: int|
                            0 <= j < q && j != p ==> !#[trigger] is_file(args, j);
                let p = choose|p: int|
                    0 <= p < q && #[trigger] is_file(args, p) && forall|j: int|
                        0 <= j < q && j != p ==> !#[trigger] is_file(args, j);
                assert(is_file(args, p) && is_file(args, q));
                assert forall|r: int|
                    0 <= r < args.len() && #[trigger] is_file(args, r) && (exists|s: int|
                        0 <= s < r && #[trigger] is_file(args, s) && forall|j: int|
                            0 <= j < r && j != s ==> !#[trigger] is_file(args, j)) implies r == q by {
                    let s = choose|s: int|
                        0 <= s < r && #[trigger] is_file(args, s) && forall|j: int|
                            0 <= j < r && j != s ==> !#[trigger] is_file(args, j);
                    if r < q {
                        assert(r == p);
                        assert(s == p);
                    } else if q < r {
                        assert(q == s);
                        assert(p == s);
                    }
                }
            }
        },
    }
}

/// No arguments ask for nothing.
pub proof fn nothing_asked_without_arguments()
    ensures
        asked(Seq::empty()) == Ok::<OptionsView, Seq<char>>(
            OptionsView { readme: None, check_links: false, base: None },
        ),
{
}

/// A path is written with forward slashes in place of backslashes and otherwise
/// as it is.
pub proof fn only_backslashes_are_turned(path: Seq<char>, i: int)
    ensures
        cli::with_forward_slashes(path).len() == path.len(),
        0 <= i < path.len() ==> cli::with_forward_slashes(path)[i] == if path[i] == '\\' {
            '/'
        } else {
            path[i]
        },
{
}

/// The closing line tells the three numbers.
pub proof fn closing_line_tells_the_numbers(resources: nat, errors: nat, warnings: nat)
    ensures
        cli::summary_text(resources, errors, warnings) == "Validated "@ + text::decimal(resources)
            + " resources with "@ + text::decimal(errors) + " errors and "@ + text::decimal(warnings)
            + " warnings."@,
{
}

/// What is said of a missing revision tells what was asked for and the answer.
pub proof fn missing_revision_tells_the_answer(target: Seq<char>, output: Seq<u8>)
    ensures
        cli::missing_revision_text(target, output) == "git show "@ + target + " failed: "@
            + text::text_of_bytes(output),
{
}

/// The model of the options keeps every one of them.
pub proof fn option_models_keep_everything(o: Options)
    ensures
        o@.check_links == o.check_links,
        o@.readme is Some <==> o.readme is Some,
        o.readme matches Some(s) ==> o@.readme == Some(s@),
        o@.base is Some <==> o.base is Some,
        o.base matches Some(s) ==> o@.base == Some(s@),
{
}

}
