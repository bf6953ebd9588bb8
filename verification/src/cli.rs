//! The command line: its arguments, the revision to compare with, and the
//! closing report.
use crate::churn;
use crate::churn::validate_churn;
use crate::text;
use crate::text::{chars_of, same_text, starts_with, string_of, text_from_bytes, to_decimal};
use vstd::prelude::*;
use vstd::slice::slice_subrange;

verus! {

/// What the command line asks for.
#[derive(Debug)]
pub struct Options {
    /// The file to validate, where one is named.
    pub readme: Option<String>,
    /// Whether to follow the links.
    pub check_links: bool,
    /// The revision to compare with, where one is named.
    pub base: Option<String>,
}

/// The model of `Options`.
pub struct OptionsView {
    pub readme: Option<Seq<char>>,
    pub check_links: bool,
    pub base: Option<Seq<char>>,
}

/// The view of a text that may be missing.
pub open spec fn text_view(s: Option<String>) -> Option<Seq<char>> {
    match s {
        Some(s) => Some(s@),
        None => None,
    }
}

impl View for Options {
    type V = OptionsView;

    open spec fn view(&self) -> OptionsView {
        OptionsView {
            readme: text_view(self.readme),
            check_links: self.check_links,
            base: text_view(self.base),
        }
    }
}

/// The options that the arguments from `i` on make of `so_far`, or what is
/// wrong with the first argument that cannot be used.
pub open spec fn options_from(args: Seq<Seq<char>>, i: int, so_far: OptionsView) -> Result<
    OptionsView,
    Seq<char>,
>
    decreases args.len() - i,
{
    if i < 0 || i >= args.len() {
        Ok(so_far)
    } else if args[i] == "--check-links"@ {
        options_from(args, i + 1, OptionsView { check_links: true, ..so_far })
    } else if args[i] == "--base"@ {
        if i + 1 < args.len() {
            options_from(args, i + 2, OptionsView { base: Some(args[i + 1]), ..so_far })
        } else {
            Err("--base requires a value"@)
        }
    } else if "--base="@.is_prefix_of(args[i]) {
        options_from(args, i + 1, OptionsView { base: Some(args[i].skip(7)), ..so_far })
    } else if so_far.readme is None {
        options_from(args, i + 1, OptionsView { readme: Some(args[i]), ..so_far })
    } else {
        Err("unexpected argument '"@ + args[i] + "'"@)
    }
}

/// Nothing asked for yet.
pub open spec fn no_options() -> OptionsView {
    OptionsView { readme: None, check_links: false, base: None }
}

/// Reads the arguments of the command line, without the name of the program.
pub fn parse_arguments(args: &Vec<String>) -> (r: Result<Options, String>)
    ensures
        match r {
            Ok(options) => options_from(text::views(args@), 0, no_options()) == Ok::<
                OptionsView,
                Seq<char>,
            >(options@),
            Err(message) => options_from(text::views(args@), 0, no_options()) == Err::<
                OptionsView,
                Seq<char>,
            >(message@),
        },
{
    let ghost all = text::views(args@);
    let mut options = Options { readme: None, check_links: false, base: None };
    let mut i: usize = 0;
    while i < args.len()
        invariant
            i <= args.len(),
            all == text::views(args@),
            options_from(all, 0, no_options()) == options_from(all, i as int, options@),
        decreases args.len() - i,
    {
        let arg = args[i].as_str();
        let cs = chars_of(arg);
        assert(all[i as int] == arg@);
        if same_text(arg, "--check-links") {
            options.check_links = true;
            i += 1;
        } else if same_text(arg, "--base") {
            if args.len() - i < 2 {
                return Err(String::from_str("--base requires a value"));
            }
            assert(all[i + 1] == args@[i + 1]@);
            options.base = Some(args[i + 1].clone());
            i += 2;
        } else if starts_with(cs.as_slice(), "--base=") {
            proof {
                reveal_strlit("--base=");
                assert(cs@.subrange(7, cs@.len() as int) =~= arg@.skip(7));
            }
            options.base = Some(string_of(slice_subrange(cs.as_slice(), 7, cs.len())));
            i += 1;
        } else if options.readme.is_none() {
            options.readme = Some(arg.to_owned());
            i += 1;
        } else {
            let mut message = String::from_str("unexpected argument '");
            message.append(arg);
            message.append("'");
            return Err(message);
        }
    }
    Ok(options)
}

/// A path with forward slashes.
pub open spec fn with_forward_slashes(path: Seq<char>) -> Seq<char> {
    path.map_values(
        |c: char|
            if c == '\\' {
                '/'
            } else {
                c
            },
    )
}

/// The object that holds the file at a revision: `revision:path`.
pub fn revision_target(base: &str, path: &str) -> (target: String)
    ensures
        target@ == base@ + ":"@ + with_forward_slashes(path@),
{
    let mut target = String::from_str(base);
    target.append(":");
    let ghost start = target@;
    let cs = chars_of(path);
    let mut i: usize = 0;
    assert(start =~= start + with_forward_slashes(path@).take(0));
    while i < cs.len()
        invariant
            i <= cs.len(),
            cs@ == path@,
            target@ == start + with_forward_slashes(path@).take(i as int),
        decreases cs.len() - i,
    {
        if cs[i] == '\\' {
            target.push('/');
        } else {
            target.push(cs[i]);
        }
        assert(target@ =~= start + with_forward_slashes(path@).take(i + 1));
        i += 1;
    }
    assert(with_forward_slashes(path@).take(i as int) =~= with_forward_slashes(path@));
    target
}

/// Compares a README with its earlier revision, of which the bytes are given.
pub fn compare_revisions(base: &Vec<u8>, current: &str) -> (errors: Vec<String>)
    ensures
        text::views(errors@) == churn::churn_errors(text::text_of_bytes(base@), current@),
{
    validate_churn(text_from_bytes(base).as_str(), current)
}

/// What is said where `git` could not show the file at a revision.
pub open spec fn missing_revision_text(target: Seq<char>, output: Seq<u8>) -> Seq<char> {
    "git show "@ + target + " failed: "@ + text::text_of_bytes(output)
}

/// What is said where `git` could not show the file at a revision, with what
/// `git` itself said about it.
pub fn missing_revision(target: &str, output: &Vec<u8>) -> (message: String)
    ensures
        message@ == missing_revision_text(target@, output@),
{
    let mut message = String::from_str("git show ");
    message.append(target);
    message.append(" failed: ");
    message.append(text_from_bytes(output).as_str());
    message
}

/// The closing line of a report.
pub open spec fn summary_text(resources: nat, errors: nat, warnings: nat) -> Seq<char> {
    "Validated "@ + text::decimal(resources) + " resources with "@ + text::decimal(errors)
        + " errors and "@ + text::decimal(warnings) + " warnings."@
}

/// The closing line of a report.
pub fn summary(resources: usize, errors: usize, warnings: usize) -> (line: String)
    ensures
        line@ == summary_text(resources as nat, errors as nat, warnings as nat),
{
    let mut line = String::from_str("Validated ");
    line.append(to_decimal(resources).as_str());
    line.append(" resources with ");
    line.append(to_decimal(errors).as_str());
    line.append(" errors and ");
    line.append(to_decimal(warnings).as_str());
    line.append(" warnings.");
    line
}

}
