use vstd::prelude::*;
use vstd::string::{StrSliceExecFns, StringExecFns, StringSliceAdditionalSpecFns};

verus! {

/// What follows the name of the program in the first line of the banner.
pub const COPYRIGHT: &'static str =
    ": Copyright (c) 2025 Jonathan \"Nath\" Schild. Licensed under the EUPL-1.2";

/// The number of bytes that `text` takes.
pub open spec fn bytes(text: Seq<char>) -> usize {
    vstd::utf8::encode_utf8(text).len() as usize
}

/// `n` times the character `c`.
pub open spec fn repeated(c: char, n: int) -> Seq<char> {
    Seq::new(
        if n > 0 {
            n as nat
        } else {
            0
        },
        |i: int| c,
    )
}

/// `text` with blanks behind it up to `width` characters.
pub open spec fn padded(text: Seq<char>, width: int) -> Seq<char> {
    text + repeated(' ', width - text.len())
}

/// The line that names the program.
pub open spec fn name_line(name: Seq<char>) -> Seq<char> {
    name + COPYRIGHT@
}

/// The line that names the version: with the hash of the commit where there is one.
pub open spec fn version_line(
    version: Seq<char>,
    hash: Seq<char>,
    epoch: Seq<char>,
    date: Seq<char>,
) -> Seq<char> {
    if hash.len() > 0 {
        "Version: "@ + version + "+"@ + hash + "."@ + epoch + " at "@ + date
    } else {
        "Version: "@ + version + "."@ + epoch + " at "@ + date
    }
}

/// The line that names the compiler.
pub open spec fn rustc_line(rustc: Seq<char>) -> Seq<char> {
    "Rust Version: "@ + rustc
}

/// The line that names the place of the source code.
pub open spec fn repository_line(repository: Seq<char>) -> Seq<char> {
    "Source Code: "@ + repository
}

/// The larger of two numbers.
pub open spec fn larger(a: usize, b: usize) -> usize {
    if a >= b {
        a
    } else {
        b
    }
}

/// The width of the text in the banner: two more than the bytes of the
/// longest line.
pub open spec fn text_width(lines: Seq<Seq<char>>) -> int {
    larger(larger(bytes(lines[0]), bytes(lines[1])), larger(bytes(lines[2]), bytes(lines[3]))) + 2
}

/// One line of the banner: `text` between `#  ` and `#`, filled up with
/// blanks to `width` characters.
pub open spec fn framed(text: Seq<char>, width: int) -> Seq<char> {
    "\n#  "@ + padded(text, width) + "#"@
}

/// A line of the frame: `width` times `c` between two `#`.
pub open spec fn rule(c: char, width: int) -> Seq<char> {
    "\n#"@ + repeated(c, width) + "#"@
}

/// The banner around four lines: a frame of `=` and blanks that is as wide
/// as the longest line needs, and each line in it.
pub open spec fn banner(lines: Seq<Seq<char>>) -> Seq<char> {
    let w = text_width(lines);
    rule('=', w + 2) + rule(' ', w + 2) + framed(lines[0], w) + framed(lines[1], w) + framed(
        lines[2],
        w,
    ) + framed(lines[3], w) + rule(' ', w + 2) + rule('=', w + 2)
}

fn push_repeated(text: &mut String, piece: &'static str, c: char, n: u128)
    requires
        piece@ == seq![c],
    ensures
        final(text)@ == old(text)@ + repeated(c, n as int),
{
    let mut i: u128 = 0;
    assert(text@ =~= old(text)@ + repeated(c, 0));
    while i < n
        invariant
            i <= n,
            piece@ == seq![c],
            text@ == old(text)@ + repeated(c, i as int),
        decreases n - i,
    {
        text.append(piece);
        i += 1;
        assert(text@ =~= old(text)@ + repeated(c, i as int));
    }
}

fn push_rule(text: &mut String, piece: &'static str, c: char, width: u128)
    requires
        piece@ == seq![c],
    ensures
        final(text)@ == old(text)@ + rule(c, width as int),
{
    text.append("\n#");
    push_repeated(text, piece, c, width);
    text.append("#");
    assert(text@ =~= old(text)@ + rule(c, width as int));
}

fn push_framed(text: &mut String, line: &str, width: u128)
    ensures
        final(text)@ == old(text)@ + framed(line@, width as int),
{
    proof {
        reveal_strlit(" ");
        assert(" "@ =~= seq![' ']);
    }
    text.append("\n#  ");
    text.append(line);
    let have = line.unicode_len() as u128;
    let blanks: u128 = if width > have {
        width - have
    } else {
        0
    };
    push_repeated(text, " ", ' ', blanks);
    text.append("#");
    assert(repeated(' ', blanks as int) =~= repeated(' ', width - line@.len()));
    assert(text@ =~= old(text)@ + framed(line@, width as int));
}

/// The larger of two numbers.
pub fn max(a: usize, b: usize) -> (r: usize)
    ensures
        r == larger(a, b),
{
    if a >= b {
        a
    } else {
        b
    }
}

/// The banner around the four lines `name`, `version`, `rustc` and `repository`.
pub fn frame(name: &str, version: &str, rustc: &str, repository: &str) -> (r: String)
    ensures
        r@ == banner(seq![name@, version@, rustc@, repository@]),
{
    proof {
        reveal_strlit("=");
        reveal_strlit(" ");
        assert("="@ =~= seq!['=']);
        assert(" "@ =~= seq![' ']);
    }
    let longest = max(max(name.len(), version.len()), max(rustc.len(), repository.len()));
    let w: u128 = longest as u128 + 2;
    let ghost lines = seq![name@, version@, rustc@, repository@];
    assert(w == text_width(lines));

    let mut text = String::new();
    push_rule(&mut text, "=", '=', w + 2);
    push_rule(&mut text, " ", ' ', w + 2);
    push_framed(&mut text, name, w);
    push_framed(&mut text, version, w);
    push_framed(&mut text, rustc, w);
    push_framed(&mut text, repository, w);
    push_rule(&mut text, " ", ' ', w + 2);
    push_rule(&mut text, "=", '=', w + 2);
    assert(text@ =~= banner(lines));
    text
}

/// The banner that tells what was built: the name of the program with its
/// licence, the version with the time of the build and, where `hash` is not
/// empty, the commit, the compiler, and where the source code is.
#[must_use]
pub fn build_info(
    name: &str,
    version: &str,
    hash: &str,
    epoch: &str,
    date: &str,
    rustc: &str,
    repository: &str,
) -> (r: String)
    ensures
        r@ == banner(
            seq![
                name_line(name@),
                version_line(version@, hash@, epoch@, date@),
                rustc_line(rustc@),
                repository_line(repository@),
            ],
        ),
{
    let mut first = String::from_str(name);
    first.append(COPYRIGHT);

    let mut second = String::from_str("Version: ");
    second.append(version);
    if !hash.is_empty() {
        second.append("+");
        second.append(hash);
    }
    second.append(".");
    second.append(epoch);
    second.append(" at ");
    second.append(date);
    assert(second@ =~= version_line(version@, hash@, epoch@, date@));

    let mut third = String::from_str("Rust Version: ");
    third.append(rustc);

    let mut fourth = String::from_str("Source Code: ");
    fourth.append(repository);

    frame(first.as_str(), second.as_str(), third.as_str(), fourth.as_str())
}

} // verus!
