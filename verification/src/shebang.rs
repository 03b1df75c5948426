//! Makes the interpreter line of a script portable: a path to `perl` or
//! `python` that the build machine left there gives way to `/usr/bin/env`.

use vstd::prelude::*;
use crate::text::{
    char_views, chars_of, contains_seq, has_infix, has_prefix, join, join_chars, lines, lines_chars,
    push_all, same_chars, string_of,
};

verus! {

/// How many bytes of a file are looked at to tell text from binary.
pub const TEXT_PROBE_LEN: usize = 512;

/// The interpreter line for Perl scripts.
pub const PERL_LINE: &'static str = "#!/usr/bin/env perl";

/// The interpreter line for Python scripts.
pub const PYTHON_LINE: &'static str = "#!/usr/bin/env python3";

/// The byte can stand in text: it is ASCII or continues a UTF-8 sequence.
pub open spec fn is_text_byte(b: u8) -> bool {
    b < 0x80 || (b & 0xC0) == 0x80
}

/// All bytes of `head` can stand in text.
pub open spec fn is_text(head: Seq<u8>) -> bool {
    forall|i: int| 0 <= i < head.len() ==> is_text_byte(#[trigger] head[i])
}

/// The portable form of an interpreter line: for a line that starts with
/// `#!` and names `perl`, the Perl line; for one that names `python`, the
/// Python line; none for any other line.
pub open spec fn portable_line(first: Seq<char>) -> Option<Seq<char>> {
    if !"#!"@.is_prefix_of(first) {
        None
    } else if contains_seq(first, "perl"@) {
        Some(PERL_LINE@)
    } else if contains_seq(first, "python"@) {
        Some(PYTHON_LINE@)
    } else {
        None
    }
}

/// The script with a portable interpreter line, where its first line has
/// to change: the lines are those of `content` but for the first, each
/// ended by a line feed. None where nothing changes.
pub open spec fn fixed_script(content: Seq<char>) -> Option<Seq<char>> {
    let all = lines(content);
    if all.len() == 0 {
        None
    } else {
        match portable_line(all[0]) {
            None => None,
            Some(line) => if line == all[0] {
                None
            } else {
                Some(join(all.update(0, line), "\n"@) + "\n"@)
            },
        }
    }
}

/// Whether the first bytes of a file, at most 512 of them, are those of a
/// text file.
pub fn is_text_head(head: &[u8]) -> (r: bool)
    ensures
        r == is_text(head@),
{
    let mut i: usize = 0;
    while i < head.len()
        invariant
            i <= head.len(),
            forall|j: int| 0 <= j < i ==> is_text_byte(#[trigger] head[j]),
        decreases head.len() - i,
    {
        let b: u8 = head[i];
        if !(b < 0x80 || (b & 0xC0) == 0x80) {
            return false;
        }
        i += 1;
    }
    true
}

/// The new content of a script whose interpreter line has to change, or
/// none where the content stays as it is.
pub fn fix_shebang(content: &str) -> (out: Option<String>)
    ensures
        match out {
            Some(text) => fixed_script(content@) == Some(text@),
            None => fixed_script(content@) is None,
        },
{
    let chars = chars_of(content);
    let mut all = lines_chars(chars.as_slice());
    if all.len() == 0 {
        return None;
    }
    let ghost old_lines = char_views(all@);
    assert(old_lines[0] == all[0]@);
    let first = &all[0];
    if !has_prefix(first.as_slice(), "#!") {
        return None;
    }
    let line = if has_infix(first.as_slice(), "perl") {
        chars_of(PERL_LINE)
    } else if has_infix(first.as_slice(), "python") {
        chars_of(PYTHON_LINE)
    } else {
        return None;
    };
    if same_chars(first.as_slice(), line.as_slice()) {
        return None;
    }
    let ghost new_line = line@;
    all.set(0, line);
    assert(char_views(all@) =~= old_lines.update(0, new_line));
    let newline = chars_of("\n");
    let mut text = join_chars(&all, newline.as_slice());
    push_all(&mut text, newline.as_slice());
    Some(string_of(text.as_slice()))
}

} // verus!
