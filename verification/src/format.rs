//! Text that the manager prints or writes: the column layout of package
//! names, the font installation hints, and the `PATH` block of a shell
//! start-up file.

use vstd::prelude::*;
use crate::text::{
    char_views, chars_of, is_str, join, join_chars, lines, lines_chars, push_all, push_str,
    string_of, trim_chars, trimmed, views,
};

verus! {

/// Width of one column of package names, indent included.
pub const COLUMN_WIDTH: u32 = 16;

/// Width of a line of package names.
pub const LINE_WIDTH: u32 = 80;

/// `n` spaces.
pub open spec fn spaces(n: int) -> Seq<char> {
    Seq::new(
        if n > 0 {
            n as nat
        } else {
            0
        },
        |i: int| ' ',
    )
}

/// One cell of the package table: two spaces, then the name padded with
/// spaces to 14 characters; longer names are not cut.
pub open spec fn cell(name: Seq<char>) -> Seq<char> {
    "  "@ + name + spaces(14 - name.len())
}

/// The table while it is laid out: the text so far, the first character of
/// the last name placed (`'\0'` before the first), and how many names the
/// current line holds.
pub struct Table {
    pub text: Seq<char>,
    pub initial: char,
    pub count: int,
}

/// The table after `name` is placed: an empty name changes nothing; a new
/// first letter starts a new line, and so does a line that is full.
pub open spec fn place(t: Table, name: Seq<char>) -> Table {
    if name.len() == 0 {
        t
    } else {
        let regroup = t.initial != '\0' && name[0] != t.initial;
        let text1 = if regroup {
            t.text.push('\n')
        } else {
            t.text
        };
        let count1 = if regroup {
            0
        } else {
            t.count
        };
        let wrap = count1 > 0 && count1 * 16 + 16 > 80;
        let text2 = if wrap {
            text1.push('\n')
        } else {
            text1
        };
        let count2 = if wrap {
            0
        } else {
            count1
        };
        Table { text: text2 + cell(name), initial: name[0], count: count2 + 1 }
    }
}

/// The table after all of `names` are placed in order.
pub open spec fn table_of(names: Seq<Seq<char>>) -> Table
    decreases names.len(),
{
    if names.len() == 0 {
        Table { text: Seq::empty(), initial: '\0', count: 0 }
    } else {
        place(table_of(names.drop_last()), names.last())
    }
}

/// At most five names stand on a line.
pub proof fn lemma_table_count(names: Seq<Seq<char>>)
    ensures
        0 <= table_of(names).count <= 5,
    decreases names.len(),
{
    if names.len() > 0 {
        lemma_table_count(names.drop_last());
    }
}

/// Lays package names out in columns of 16 characters, five to a line,
/// with a new line wherever the first letter changes.
pub fn format_packages(packages: &[String]) -> (out: String)
    ensures
        out@ == table_of(views(packages@)).text,
{
    let mut text: Vec<char> = Vec::new();
    let mut initial: char = '\0';
    let mut count: u32 = 0;
    let mut i: usize = 0;
    assert(views(packages@).take(0) =~= Seq::<Seq<char>>::empty());
    while i < packages.len()
        invariant
            i <= packages.len(),
            count <= 5,
            table_of(views(packages@).take(i as int)) == (Table {
                text: text@,
                initial: initial,
                count: count as int,
            }),
        decreases packages.len() - i,
    {
        let ghost before = views(packages@).take(i as int);
        let ghost after = views(packages@).take(i + 1);
        proof {
            assert(after.drop_last() =~= before);
            assert(after.last() == packages[i as int]@);
            lemma_table_count(after);
        }
        let name = chars_of(packages[i].as_str());
        if name.len() > 0 {
            let first = name[0];
            if initial != '\0' && first != initial {
                text.push('\n');
                count = 0;
            }
            if count > 0 && count * COLUMN_WIDTH + COLUMN_WIDTH > LINE_WIDTH {
                text.push('\n');
                count = 0;
            }
            initial = first;
            let ghost start = text@;
            push_str(&mut text, "  ");
            push_all(&mut text, name.as_slice());
            let mut k: usize = name.len();
            while k < 14
                invariant
                    name.len() <= k,
                    k <= 14 || k == name.len(),
                    text@ == start + "  "@ + name@ + spaces(k - name.len()),
                decreases 14 - k,
            {
                text.push(' ');
                k += 1;
                assert(spaces(k - name.len()) =~= spaces(k - 1 - name.len()).push(' '));
                assert(text@ =~= start + "  "@ + name@ + spaces(k - name.len()));
            }
            assert(spaces(k - name.len()) =~= spaces(14 - name.len()));
            assert(text@ =~= start + cell(name@));
            count += 1;
        }
        i += 1;
    }
    assert(views(packages@).take(packages.len() as int) =~= views(packages@));
    string_of(text.as_slice())
}

/// The line that puts `dir` at the front of `PATH`.
pub open spec fn path_config(dir: Seq<char>) -> Seq<char> {
    "export PATH=\""@ + dir + ":$PATH\""@
}

/// The shell line that puts a directory at the front of `PATH`.
pub fn generate_path_configs(dir_path: &str) -> (out: String)
    ensures
        out@ == path_config(dir_path@),
{
    let mut text: Vec<char> = Vec::new();
    push_str(&mut text, "export PATH=\"");
    push_str(&mut text, dir_path);
    push_str(&mut text, ":$PATH\"");
    assert(text@ =~= path_config(dir_path@));
    string_of(text.as_slice())
}

/// First line of the font installation hint.
pub const FONT_HEADER: &'static str = "==> To install fonts for current user, run:\n\n";

/// The PowerShell script up to the font directory.
pub const WINDOWS_HEAD: &'static str =
    "$fonts = (New-Object -ComObject Shell.Application).Namespace(0x14)\nGet-ChildItem \"";

/// The PowerShell script after the font directory.
pub const WINDOWS_TAIL: &'static str = "\" -Include '*.ttf','*.ttc','*.otf' -Recurse | ForEach {\n    If (-not(Test-Path \"C:\\Windows\\Fonts\\$($_.Name)\") -and\n        -not(Test-Path \"$env:LOCALAPPDATA\\Microsoft\\Windows\\Fonts\\$($_.Name)\")) {\n        $fonts.CopyHere($_.FullName, 0x10)\n        Write-Host \"Installing $($_.Name)...\"\n    }\n}\n";

/// The macOS script up to the font directory.
pub const MACOS_HEAD: &'static str = "for ext in ttf ttc otf; do\n    find \"";

/// The macOS script after the font directory.
pub const MACOS_TAIL: &'static str = "\" -type f -iname \"*.$ext\" -print0 | while IFS= read -r -d '' font; do\n        basename=\"$(basename \"$font\")\"\n        if [ ! -f \"$HOME/Library/Fonts/$basename\" ]; then\n            cp \"$font\" \"$HOME/Library/Fonts/\"\n            echo \"Installing $basename...\"\n        fi\n    done\ndone\n";

/// The Linux script up to the font directory.
pub const LINUX_HEAD: &'static str =
    "mkdir -p \"$HOME/.local/share/fonts\"\nfor ext in ttf ttc otf; do\n    find \"";

/// The Linux script after the font directory.
pub const LINUX_TAIL: &'static str = "\" -type f -iname \"*.$ext\" -print0 | while IFS= read -r -d '' font; do\n        basename=\"$(basename \"$font\")\"\n        if [ ! -f \"$HOME/.local/share/fonts/$basename\" ]; then\n            cp \"$font\" \"$HOME/.local/share/fonts/\"\n            echo \"Installing $basename...\"\n        fi\n    done\ndone\nfc-cache -f -v\n";

/// The hint for installing the fonts under `font_dir` on the system named
/// `os`: the header, then the script of that system with the directory in
/// it; for a system that is not known, the header alone.
pub open spec fn font_instructions(os: Seq<char>, font_dir: Seq<char>) -> Seq<char> {
    if os == "windows"@ {
        FONT_HEADER@ + WINDOWS_HEAD@ + font_dir + WINDOWS_TAIL@
    } else if os == "macos"@ {
        FONT_HEADER@ + MACOS_HEAD@ + font_dir + MACOS_TAIL@
    } else if os == "linux"@ {
        FONT_HEADER@ + LINUX_HEAD@ + font_dir + LINUX_TAIL@
    } else {
        FONT_HEADER@
    }
}

/// The commands that install the fonts under `font_dir` for the current
/// user of the given operating system.
pub fn font_install_instructions(os_type: &str, font_dir: &str) -> (out: String)
    ensures
        out@ == font_instructions(os_type@, font_dir@),
{
    let os = chars_of(os_type);
    let mut text: Vec<char> = Vec::new();
    push_str(&mut text, FONT_HEADER);
    assert(text@ =~= FONT_HEADER@);
    if is_str(os.as_slice(), "windows") {
        push_str(&mut text, WINDOWS_HEAD);
        push_str(&mut text, font_dir);
        push_str(&mut text, WINDOWS_TAIL);
    } else if is_str(os.as_slice(), "macos") {
        push_str(&mut text, MACOS_HEAD);
        push_str(&mut text, font_dir);
        push_str(&mut text, MACOS_TAIL);
    } else if is_str(os.as_slice(), "linux") {
        push_str(&mut text, LINUX_HEAD);
        push_str(&mut text, font_dir);
        push_str(&mut text, LINUX_TAIL);
    }
    string_of(text.as_slice())
}

/// The line that opens the manager's block in a shell start-up file.
pub const RC_START: &'static str = "# .cbp start";

/// The line that closes the manager's block.
pub const RC_END: &'static str = "# .cbp end";

/// A start-up file while it is rewritten: the lines kept so far, whether
/// the scan is inside the manager's block, and whether a block was seen.
pub struct RcScan {
    pub kept: Seq<Seq<char>>,
    pub inside: bool,
    pub found: bool,
}

/// The scan after one more line: the opening line is kept and followed by
/// the new `config`; the closing line is kept; any other line is kept
/// outside the block and dropped inside it.
pub open spec fn rc_step(scan: RcScan, line: Seq<char>, config: Seq<char>) -> RcScan {
    if trimmed(line) == RC_START@ {
        RcScan { kept: scan.kept.push(line).push(config), inside: true, found: true }
    } else if trimmed(line) == RC_END@ {
        RcScan { kept: scan.kept.push(line), inside: false, found: scan.found }
    } else if !scan.inside {
        RcScan { kept: scan.kept.push(line), inside: scan.inside, found: scan.found }
    } else {
        scan
    }
}

/// The scan after all of `lines`.
pub open spec fn rc_scan(lines: Seq<Seq<char>>, config: Seq<char>) -> RcScan
    decreases lines.len(),
{
    if lines.len() == 0 {
        RcScan { kept: Seq::empty(), inside: false, found: false }
    } else {
        rc_step(rc_scan(lines.drop_last(), config), lines.last(), config)
    }
}

/// `kept` followed by an empty line, unless it is empty or ends in one.
pub open spec fn blank_ended(kept: Seq<Seq<char>>) -> Seq<Seq<char>> {
    if kept.len() > 0 && kept.last().len() > 0 {
        kept.push(Seq::empty())
    } else {
        kept
    }
}

/// The lines of a start-up file once `PATH` leads to `bin_dir`: a block
/// that is there gets the new line; otherwise a block is added at the end,
/// after an empty line.
pub open spec fn rc_lines(content: Seq<char>, bin_dir: Seq<char>) -> Seq<Seq<char>> {
    let scan = rc_scan(lines(content), path_config(bin_dir));
    if scan.found {
        blank_ended(scan.kept)
    } else {
        blank_ended(
            blank_ended(scan.kept).push(RC_START@).push(path_config(bin_dir)).push(RC_END@),
        )
    }
}

/// The start-up file once `PATH` leads to `bin_dir`.
pub open spec fn rc_text(content: Seq<char>, bin_dir: Seq<char>) -> Seq<char> {
    join(rc_lines(content, bin_dir), "\n"@) + "\n"@
}

/// Adds an empty line to `kept` unless it is empty or ends in one.
fn end_with_blank(kept: &mut Vec<Vec<char>>)
    ensures
        char_views(final(kept)@) == blank_ended(char_views(old(kept)@)),
{
    let n: usize = kept.len();
    if n > 0 && kept[n - 1].len() > 0 {
        let ghost before = char_views(kept@);
        kept.push(Vec::new());
        assert(char_views(kept@) =~= before.push(Seq::<char>::empty()));
    }
}

/// Adds the characters of `line` to `kept` as one more line.
fn keep_line(kept: &mut Vec<Vec<char>>, line: &[char])
    ensures
        char_views(final(kept)@) == char_views(old(kept)@).push(line@),
{
    let ghost before = char_views(kept@);
    let mut copy: Vec<char> = Vec::new();
    push_all(&mut copy, line);
    assert(copy@ =~= line@);
    kept.push(copy);
    assert(char_views(kept@) =~= before.push(line@));
}

/// Rewrites the content of a shell start-up file so that `PATH` leads to
/// `bin_dir`: the line inside the manager's block is replaced, or a new
/// block is added at the end.
pub fn update_shell_rc(content: &str, bin_dir: &str) -> (out: String)
    ensures
        out@ == rc_text(content@, bin_dir@),
{
    let text = chars_of(content);
    let all = lines_chars(text.as_slice());
    let config_line = generate_path_configs(bin_dir);
    let config = chars_of(config_line.as_str());
    let start = chars_of(RC_START);
    let end = chars_of(RC_END);
    let mut kept: Vec<Vec<char>> = Vec::new();
    let mut inside = false;
    let mut found = false;
    let mut i: usize = 0;
    assert(char_views(all@).take(0) =~= Seq::<Seq<char>>::empty());
    assert(char_views(kept@) =~= Seq::<Seq<char>>::empty());
    while i < all.len()
        invariant
            i <= all.len(),
            config@ == path_config(bin_dir@),
            start@ == RC_START@,
            end@ == RC_END@,
            rc_scan(char_views(all@).take(i as int), config@) == (RcScan {
                kept: char_views(kept@),
                inside: inside,
                found: found,
            }),
        decreases all.len() - i,
    {
        let ghost before = char_views(all@).take(i as int);
        let ghost after = char_views(all@).take(i + 1);
        proof {
            assert(after.drop_last() =~= before);
            assert(after.last() == all[i as int]@);
        }
        let line = &all[i];
        let core = trim_chars(line.as_slice());
        if is_str(core.as_slice(), RC_START) {
            found = true;
            inside = true;
            keep_line(&mut kept, line.as_slice());
            keep_line(&mut kept, config.as_slice());
        } else if is_str(core.as_slice(), RC_END) {
            inside = false;
            keep_line(&mut kept, line.as_slice());
        } else if !inside {
            keep_line(&mut kept, line.as_slice());
        }
        i += 1;
    }
    assert(char_views(all@).take(all.len() as int) =~= char_views(all@));
    if !found {
        end_with_blank(&mut kept);
        keep_line(&mut kept, start.as_slice());
        keep_line(&mut kept, config.as_slice());
        keep_line(&mut kept, end.as_slice());
    }
    end_with_blank(&mut kept);
    let newline = chars_of("\n");
    let mut joined = join_chars(&kept, newline.as_slice());
    push_all(&mut joined, newline.as_slice());
    string_of(joined.as_slice())
}

} // verus!
