//! The signature that marks a generated file: a header that names the file's
//! path and a digest of its path and body, and the test whether a file still
//! is what its header says.
use vstd::prelude::*;
use crate::text::{join_from, same, split_at_each, strip};
#[allow(unused_imports)]
use crate::text::{
    joined, joined_split_is_the_text, split, split_leaves_a_plain_text_whole,
    split_parts_at_a_separator, stripped, texts,
};
#[allow(unused_imports)]
use vstd::utf8::encode_utf8;

verus! {

/// The SHA-256 hash of a sequence of bytes.
pub uninterp spec fn sha256(data: Seq<u8>) -> Seq<u8>;

/// `sha2::Sha256::digest`: the 32 bytes of the SHA-256 hash, which depend on
/// the data alone.
#[verifier::external_body]
fn sha256_of(data: &[u8]) -> (hash: Vec<u8>)
    ensures
        hash@ == sha256(data@),
        hash@.len() == 32,
{
    <sha2::Sha256 as sha2::Digest>::digest(data).to_vec()
}

/// The hexadecimal digit for a number below sixteen.
pub open spec fn hex_digit(n: u8) -> char {
    if n < 10 {
        (n + 48) as char
    } else {
        (n + 87) as char
    }
}

/// The bytes in lower-case hexadecimal, two digits for each.
pub open spec fn hex(data: Seq<u8>) -> Seq<char>
    decreases data.len(),
{
    if data.len() == 0 {
        Seq::empty()
    } else {
        hex(data.drop_last()).push(hex_digit(data.last() / 16)).push(hex_digit(data.last() % 16))
    }
}

/// What a digest is taken of: the path, a line feed, the body.
pub open spec fn digest_input(path: Seq<char>, body: Seq<char>) -> Seq<char> {
    path.push('\n') + body
}

/// The digest of a file.
pub open spec fn digest_of(path: Seq<char>, body: Seq<char>) -> Seq<char> {
    "sha256:"@ + hex(sha256(encode_utf8(digest_input(path, body))))
}

fn hex_char(n: u8) -> (c: char)
    requires
        n < 16,
    ensures
        c == hex_digit(n),
{
    if n < 10 {
        (n + 48u8) as char
    } else {
        (n + 87u8) as char
    }
}

/// The digest of a file.
pub fn digest(path: &str, body: &str) -> (text: String)
    ensures
        text@ == digest_of(path@, body@),
        text@.len() == 71,
{
    let mut input = path.to_owned();
    input.push('\n');
    input.append(body);
    let hash = sha256_of(input.as_str().as_bytes());
    let mut digits = String::new();
    let mut i: usize = 0;
    while i < hash.len()
        invariant
            i <= hash@.len(),
            digits@ == hex(hash@.take(i as int)),
            digits@.len() == 2 * i,
        decreases hash@.len() - i,
    {
        assert(hash@.take(i + 1).drop_last() =~= hash@.take(i as int));
        digits.push(hex_char(hash[i] / 16));
        digits.push(hex_char(hash[i] % 16));
        i += 1;
    }
    assert(hash@.take(i as int) =~= hash@);
    let mut text = "sha256:".to_owned();
    text.append(digits.as_str());
    proof {
        reveal_strlit("sha256:");
    }
    text
}

/// The lines of the header of a file: fourteen in the style of PHP, eight in
/// the style of line comments.
pub open spec fn header(path: Seq<char>, hash: Seq<char>, style: Seq<char>) -> Seq<Seq<char>> {
    if style == "php"@ {
        seq![
            "<?php"@,
            ""@,
            "declare(strict_types=1);"@,
            ""@,
            "/*"@,
            " * GENERATED BY Elephentity — DO NOT EDIT."@,
            " *"@,
            " * Regenerate with `eleph generate`. This file is machine-owned: edits are"@,
            " * detected by the build and rejected."@,
            " *"@,
            " * path:   "@ + path,
            " * digest: "@ + hash,
            " */"@,
            ""@,
        ]
    } else {
        seq![
            "// GENERATED BY Elephentity — DO NOT EDIT."@,
            "//"@,
            "// Regenerate with `eleph generate`. This file is machine-owned: edits are"@,
            "// detected by the build and rejected."@,
            "//"@,
            "// path:   "@ + path,
            "// digest: "@ + hash,
            ""@,
        ]
    }
}

/// The lines one below the other, each closed by a line feed.
pub open spec fn stacked(lines: Seq<Seq<char>>) -> Seq<char>
    decreases lines.len(),
{
    if lines.len() == 0 {
        Seq::empty()
    } else {
        stacked(lines.drop_last()) + lines.last().push('\n')
    }
}

/// A file with its header.
pub open spec fn signed(path: Seq<char>, body: Seq<char>, style: Seq<char>) -> Seq<char> {
    stacked(header(path, digest_of(path, body), style)) + body
}

fn with(label: &str, value: &str) -> (line: String)
    ensures
        line@ == label@ + value@,
{
    let mut line = label.to_owned();
    line.append(value);
    line
}

/// The lines of the header of a file.
fn header_lines(path: &str, hash: &str, style: &str) -> (lines: Vec<String>)
    ensures
        texts(lines@) == header(path@, hash@, style@),
{
    let mut lines: Vec<String> = Vec::new();
    if same(style, "php") {
        lines.push("<?php".to_owned());
        lines.push("".to_owned());
        lines.push("declare(strict_types=1);".to_owned());
        lines.push("".to_owned());
        lines.push("/*".to_owned());
        lines.push(" * GENERATED BY Elephentity — DO NOT EDIT.".to_owned());
        lines.push(" *".to_owned());
        lines.push(
            " * Regenerate with `eleph generate`. This file is machine-owned: edits are".to_owned(),
        );
        lines.push(" * detected by the build and rejected.".to_owned());
        lines.push(" *".to_owned());
        lines.push(with(" * path:   ", path));
        lines.push(with(" * digest: ", hash));
        lines.push(" */".to_owned());
        lines.push("".to_owned());
    } else {
        lines.push("// GENERATED BY Elephentity — DO NOT EDIT.".to_owned());
        lines.push("//".to_owned());
        lines.push(
            "// Regenerate with `eleph generate`. This file is machine-owned: edits are".to_owned(),
        );
        lines.push("// detected by the build and rejected.".to_owned());
        lines.push("//".to_owned());
        lines.push(with("// path:   ", path));
        lines.push(with("// digest: ", hash));
        lines.push("".to_owned());
    }
    assert(texts(lines@) =~= header(path@, hash@, style@));
    lines
}

/// Puts the header of a file before its body.
pub fn sign(path: &str, body: &str, style: &str) -> (text: String)
    ensures
        text@ == signed(path@, body@, style@),
{
    let hash = digest(path, body);
    let lines = header_lines(path, hash.as_str(), style);
    let ghost all = texts(lines@);
    let mut text = String::new();
    let mut i: usize = 0;
    while i < lines.len()
        invariant
            i <= lines@.len(),
            all == texts(lines@),
            text@ == stacked(all.take(i as int)),
        decreases lines@.len() - i,
    {
        assert(all.take(i + 1).drop_last() =~= all.take(i as int));
        let ghost above = text@;
        text.append(lines[i].as_str());
        text.push('\n');
        assert(text@ =~= above + lines@[i as int]@.push('\n'));
        i += 1;
    }
    assert(all.take(i as int) =~= all);
    text.append(body);
    text
}

/// How many lines a header has.
pub open spec fn header_len(style: Seq<char>) -> int {
    if style == "php"@ {
        14
    } else {
        8
    }
}

/// What the line that declares the digest begins with.
pub open spec fn marker(style: Seq<char>) -> Seq<char> {
    if style == "php"@ {
        " * digest: "@
    } else {
        "// digest: "@
    }
}

/// What follows the marker in the first line that begins with it.
pub open spec fn marked(lines: Seq<Seq<char>>, mark: Seq<char>) -> Option<Seq<char>>
    decreases lines.len(),
{
    if lines.len() == 0 {
        None
    } else if mark.is_prefix_of(lines[0]) {
        stripped(lines[0], mark)
    } else {
        marked(lines.drop_first(), mark)
    }
}

/// Where the header of a file ends: behind its last line, or behind the file's
/// where the file has fewer lines.
pub open spec fn header_end(contents: Seq<char>, style: Seq<char>) -> int {
    if header_len(style) < split(contents, '\n').len() {
        header_len(style)
    } else {
        split(contents, '\n').len() as int
    }
}

/// The digest that the header of a file declares.
pub open spec fn declared(contents: Seq<char>, style: Seq<char>) -> Option<Seq<char>> {
    marked(split(contents, '\n').take(header_end(contents, style)), marker(style))
}

/// What stands below the header of a file.
pub open spec fn body_of(contents: Seq<char>, style: Seq<char>) -> Seq<char> {
    joined(split(contents, '\n').skip(header_end(contents, style)), "\n"@)
}

/// Whether a file declares a digest that is not the one of its path and body.
pub open spec fn is_tampered(path: Seq<char>, contents: Seq<char>, style: Seq<char>) -> bool {
    match declared(contents, style) {
        Some(hash) => hash != digest_of(path, body_of(contents, style)),
        None => false,
    }
}

/// Whether a file declares a digest that is not the one of its path and body.
pub fn tampered(path: &str, contents: &str, style: &str) -> (yes: bool)
    ensures
        yes == is_tampered(path@, contents@, style@),
{
    let php = same(style, "php");
    let count: usize = if php {
        14
    } else {
        8
    };
    let prefix = if php {
        " * digest: "
    } else {
        "// digest: "
    };
    let lines = split_at_each(contents, '\n');
    let ghost all = texts(lines@);
    let end: usize = if count < lines.len() {
        count
    } else {
        lines.len()
    };
    let mut i: usize = 0;
    assert(all.subrange(0, end as int) =~= all.take(end as int));
    while i < end
        invariant
            i <= end <= lines@.len(),
            all == texts(lines@),
            all == split(contents@, '\n'),
            end == header_end(contents@, style@),
            prefix@ == marker(style@),
            marked(all.subrange(i as int, end as int), prefix@) == declared(contents@, style@),
        decreases end - i,
    {
        let ghost rest = all.subrange(i as int, end as int);
        assert(rest[0] == lines@[i as int]@);
        match strip(lines[i].as_str(), prefix) {
            Some(hash) => {
                let body = join_from(&lines, end, "\n");
                return hash != digest(path, body.as_str());
            },
            None => {
                assert(rest.drop_first() =~= all.subrange(i + 1, end as int));
            },
        }
        i += 1;
    }
    false
}

/// Whether none of the first `n` characters is a line feed.
spec fn clear(text: Seq<char>, n: nat) -> bool
    decreases n,
{
    n == 0 || (text[n - 1] != '\n' && clear(text, (n - 1) as nat))
}

proof fn clear_means_on_one_line(text: Seq<char>, n: nat)
    requires
        clear(text, n),
        n <= text.len(),
    ensures
        forall|i: int| 0 <= i < n ==> text[i] != '\n',
    decreases n,
{
    if n > 0 {
        clear_means_on_one_line(text, (n - 1) as nat);
    }
}

/// Whether each line is free of line feeds.
spec fn single_lines(lines: Seq<Seq<char>>) -> bool {
    forall|i: int| 0 <= i < lines.len() ==> !(#[trigger] lines[i]).contains('\n')
}

proof fn split_of_stacked(lines: Seq<Seq<char>>, body: Seq<char>)
    requires
        single_lines(lines),
    ensures
        split(stacked(lines) + body, '\n') == lines + split(body, '\n'),
    decreases lines.len(),
{
    if lines.len() == 0 {
        assert(stacked(lines) + body =~= body);
        assert(lines + split(body, '\n') =~= split(body, '\n'));
    } else {
        let front = lines.drop_last();
        let last = lines.last();
        assert(single_lines(front)) by {
            assert forall|i: int| 0 <= i < front.len() implies !(#[trigger] front[i]).contains('\n') by {
                assert(!lines[i].contains('\n'));
            }
        }
        assert(!lines[lines.len() - 1].contains('\n'));
        split_of_stacked(front, last.push('\n') + body);
        split_parts_at_a_separator(last, '\n', body);
        split_leaves_a_plain_text_whole(last, '\n');
        assert(stacked(lines) + body =~= stacked(front) + (last.push('\n') + body));
        assert(lines + split(body, '\n') =~= front + (seq![last] + split(body, '\n')));
    }
}

proof fn hex_is_on_one_line(data: Seq<u8>)
    ensures
        forall|i: int| 0 <= i < hex(data).len() ==> hex(data)[i] != '\n',
    decreases data.len(),
{
    if data.len() > 0 {
        hex_is_on_one_line(data.drop_last());
        let front = hex(data.drop_last());
        let high = data.last() / 16;
        let low = data.last() % 16;
        assert(high < 16 && low < 16);
        assert(hex_digit(high) != '\n' && hex_digit(low) != '\n');
        assert(hex(data) == front.push(hex_digit(high)).push(hex_digit(low)));
    }
}

proof fn digest_is_on_one_line(path: Seq<char>, body: Seq<char>)
    ensures
        !digest_of(path, body).contains('\n'),
{
    let hash = sha256(encode_utf8(digest_input(path, body)));
    hex_is_on_one_line(hash);
    reveal_strlit("sha256:");
    reveal_with_fuel(clear, 8);
    clear_means_on_one_line("sha256:"@, 7);
    let text = digest_of(path, body);
    assert forall|i: int| 0 <= i < text.len() implies text[i] != '\n' by {
        if i >= 7 {
            assert(text[i] == hex(hash)[i - 7]);
        } else {
            assert(text[i] == "sha256:"@[i]);
        }
    }
}

proof fn a_labelled_line_is_a_single_line(label: Seq<char>, value: Seq<char>)
    requires
        !value.contains('\n'),
        clear(label, label.len()),
    ensures
        !(label + value).contains('\n'),
{
    clear_means_on_one_line(label, label.len());
    let line = label + value;
    assert forall|i: int| 0 <= i < line.len() implies line[i] != '\n' by {
        if i >= label.len() {
            assert(line[i] == value[i - label.len()]);
        } else {
            assert(line[i] == label[i]);
        }
    }
}

/// The literal lines of the header in the style of PHP hold no line feed.
proof fn php_header_is_single_lines(path: Seq<char>, hash: Seq<char>)
    requires
        !path.contains('\n'),
        !hash.contains('\n'),
    ensures
        single_lines(header(path, hash, "php"@)),
{
    reveal_with_fuel(clear, 80);
    reveal_strlit("<?php");
    reveal_strlit("");
    reveal_strlit("declare(strict_types=1);");
    reveal_strlit("/*");
    reveal_strlit(" * GENERATED BY Elephentity — DO NOT EDIT.");
    reveal_strlit(" *");
    reveal_strlit(" * Regenerate with `eleph generate`. This file is machine-owned: edits are");
    reveal_strlit(" * detected by the build and rejected.");
    reveal_strlit(" * path:   ");
    reveal_strlit(" * digest: ");
    reveal_strlit(" */");
    clear_means_on_one_line("<?php"@, "<?php"@.len());
    clear_means_on_one_line(""@, ""@.len());
    clear_means_on_one_line("declare(strict_types=1);"@, "declare(strict_types=1);"@.len());
    clear_means_on_one_line("/*"@, "/*"@.len());
    clear_means_on_one_line(" * GENERATED BY Elephentity — DO NOT EDIT."@, " * GENERATED BY Elephentity — DO NOT EDIT."@.len());
    clear_means_on_one_line(" *"@, " *"@.len());
    clear_means_on_one_line(" * Regenerate with `eleph generate`. This file is machine-owned: edits are"@, " * Regenerate with `eleph generate`. This file is machine-owned: edits are"@.len());
    clear_means_on_one_line(" * detected by the build and rejected."@, " * detected by the build and rejected."@.len());
    clear_means_on_one_line(" */"@, " */"@.len());
    a_labelled_line_is_a_single_line(" * path:   "@, path);
    a_labelled_line_is_a_single_line(" * digest: "@, hash);
}

/// The literal lines of the header in the style of line comments hold no line
/// feed.
proof fn comment_header_is_single_lines(path: Seq<char>, hash: Seq<char>, style: Seq<char>)
    requires
        style != "php"@,
        !path.contains('\n'),
        !hash.contains('\n'),
    ensures
        single_lines(header(path, hash, style)),
{
    reveal_with_fuel(clear, 80);
    reveal_strlit("");
    reveal_strlit("// GENERATED BY Elephentity — DO NOT EDIT.");
    reveal_strlit("//");
    reveal_strlit("// Regenerate with `eleph generate`. This file is machine-owned: edits are");
    reveal_strlit("// detected by the build and rejected.");
    reveal_strlit("// path:   ");
    reveal_strlit("// digest: ");
    clear_means_on_one_line(""@, ""@.len());
    clear_means_on_one_line("// GENERATED BY Elephentity — DO NOT EDIT."@, "// GENERATED BY Elephentity — DO NOT EDIT."@.len());
    clear_means_on_one_line("//"@, "//"@.len());
    clear_means_on_one_line("// Regenerate with `eleph generate`. This file is machine-owned: edits are"@, "// Regenerate with `eleph generate`. This file is machine-owned: edits are"@.len());
    clear_means_on_one_line("// detected by the build and rejected."@, "// detected by the build and rejected."@.len());
    a_labelled_line_is_a_single_line("// path:   "@, path);
    a_labelled_line_is_a_single_line("// digest: "@, hash);
}

/// What a label is put before follows the label.
proof fn label_comes_off(label: Seq<char>, value: Seq<char>)
    ensures
        stripped(label + value, label) == Some(value),
        label.is_prefix_of(label + value),
{
    assert((label + value).subrange(0, label.len() as int) =~= label);
    assert((label + value).skip(label.len() as int) =~= value);
}

/// The digest line is the first in its header that begins with the marker.
proof fn header_declares_its_digest(path: Seq<char>, hash: Seq<char>, style: Seq<char>)
    ensures
        marked(header(path, hash, style), marker(style)) == Some(hash),
{
    reveal_with_fuel(marked, 13);
    let lines = header(path, hash, style);
    let mark = marker(style);
    label_comes_off(mark, hash);
    reveal_strlit(" * digest: ");
    reveal_strlit("// digest: ");
    if style == "php"@ {
        reveal_strlit("<?php");
        reveal_strlit("");
        reveal_strlit("declare(strict_types=1);");
        reveal_strlit("/*");
        reveal_strlit(" * GENERATED BY Elephentity — DO NOT EDIT.");
        reveal_strlit(" *");
        reveal_strlit(" * Regenerate with `eleph generate`. This file is machine-owned: edits are");
        reveal_strlit(" * detected by the build and rejected.");
        reveal_strlit(" * path:   ");
        assert(lines[5][3] != mark[3]);
        assert(lines[7][3] != mark[3]);
        assert(lines[8][4] != mark[4]);
        assert(lines[10][3] == 'p');
        assert(first_marked(lines, mark, 11));
        first_marked_is_found(lines, mark, 11);
    } else {
        reveal_strlit("");
        reveal_strlit("// GENERATED BY Elephentity — DO NOT EDIT.");
        reveal_strlit("//");
        reveal_strlit("// Regenerate with `eleph generate`. This file is machine-owned: edits are");
        reveal_strlit("// detected by the build and rejected.");
        reveal_strlit("// path:   ");
        assert(lines[0][3] != mark[3]);
        assert(lines[2][3] != mark[3]);
        assert(lines[3][4] != mark[4]);
        assert(lines[5][3] == 'p');
        assert(first_marked(lines, mark, 6));
        first_marked_is_found(lines, mark, 6);
    }
}

/// Whether line `n` is the first that begins with the marker.
spec fn first_marked(lines: Seq<Seq<char>>, mark: Seq<char>, n: int) -> bool {
    &&& 0 <= n < lines.len()
    &&& mark.is_prefix_of(lines[n])
    &&& forall|i: int| 0 <= i < n ==> !mark.is_prefix_of(#[trigger] lines[i])
}

proof fn first_marked_is_found(lines: Seq<Seq<char>>, mark: Seq<char>, n: int)
    requires
        first_marked(lines, mark, n),
    ensures
        marked(lines, mark) == stripped(lines[n], mark),
    decreases n,
{
    if n > 0 {
        assert(!mark.is_prefix_of(lines[0]));
        let rest = lines.drop_first();
        assert(first_marked(rest, mark, n - 1)) by {
            assert(rest[n - 1] == lines[n]);
            assert forall|i: int| 0 <= i < n - 1 implies !mark.is_prefix_of(#[trigger] rest[i]) by {
                assert(!mark.is_prefix_of(lines[i + 1]));
            }
        }
        first_marked_is_found(rest, mark, n - 1);
    }
}

/// What is read out of a signed file: the digest in its header and the body
/// below it, whatever that body is.
proof fn a_header_is_read_back(path: Seq<char>, hash: Seq<char>, body: Seq<char>, style: Seq<char>)
    requires
        !path.contains('\n'),
        !hash.contains('\n'),
    ensures
        declared(stacked(header(path, hash, style)) + body, style) == Some(hash),
        body_of(stacked(header(path, hash, style)) + body, style) == body,
{
    let lines = header(path, hash, style);
    let contents = stacked(lines) + body;
    if style == "php"@ {
        php_header_is_single_lines(path, hash);
    } else {
        comment_header_is_single_lines(path, hash, style);
    }
    split_of_stacked(lines, body);
    joined_split_is_the_text(body, '\n');
    assert(lines.len() == header_len(style));
    assert(header_end(contents, style) == header_len(style));
    assert((lines + split(body, '\n')).take(header_len(style)) =~= lines);
    assert((lines + split(body, '\n')).skip(header_len(style)) =~= split(body, '\n'));
    header_declares_its_digest(path, hash, style);
    reveal_strlit("\n");
    assert("\n"@ =~= seq!['\n']);
}

/// A signed file gives back what was signed: its header the digest, and what
/// stands below it the body.
pub proof fn a_signed_file_is_read_back(path: Seq<char>, body: Seq<char>, style: Seq<char>)
    requires
        !path.contains('\n'),
    ensures
        declared(signed(path, body, style), style) == Some(digest_of(path, body)),
        body_of(signed(path, body, style), style) == body,
{
    digest_is_on_one_line(path, body);
    a_header_is_read_back(path, digest_of(path, body), body, style);
}

/// A change to the body of a signed file is found: with another body below its
/// header, a file is tampered with exactly where the digests of the two bodies
/// differ.
pub proof fn an_edited_body_is_found(
    path: Seq<char>,
    body: Seq<char>,
    edited: Seq<char>,
    style: Seq<char>,
)
    requires
        !path.contains('\n'),
    ensures
        is_tampered(path, stacked(header(path, digest_of(path, body), style)) + edited, style) <==> (
        digest_of(path, body) != digest_of(path, edited)),
{
    a_moved_file_is_found(path, body, path, edited, style);
}

/// A signed file that is moved to another path, with whatever body, is tampered
/// with exactly where the digest of that path and body is not the one in its
/// header.
pub proof fn a_moved_file_is_found(
    path: Seq<char>,
    body: Seq<char>,
    other_path: Seq<char>,
    other_body: Seq<char>,
    style: Seq<char>,
)
    requires
        !path.contains('\n'),
    ensures
        is_tampered(
            other_path,
            stacked(header(path, digest_of(path, body), style)) + other_body,
            style,
        ) <==> (digest_of(path, body) != digest_of(other_path, other_body)),
{
    digest_is_on_one_line(path, body);
    a_header_is_read_back(path, digest_of(path, body), other_body, style);
}

/// A file as it was signed is not tampered with, where its path is on one line
/// or its header shows no digest.
pub proof fn a_signed_file_is_sound(path: Seq<char>, body: Seq<char>, style: Seq<char>)
    requires
        !path.contains('\n') || declared(signed(path, body, style), style) is None,
    ensures
        !is_tampered(path, signed(path, body, style), style),
{
    if !path.contains('\n') {
        an_edited_body_is_found(path, body, body, style);
    }
}

/// The digest covers path and body together: of two files with their paths on
/// one line, only the same path and body give the same bytes to hash.
pub proof fn digest_input_tells_files_apart(
    path: Seq<char>,
    body: Seq<char>,
    other_path: Seq<char>,
    other_body: Seq<char>,
)
    requires
        !path.contains('\n'),
        !other_path.contains('\n'),
        encode_utf8(digest_input(path, body)) == encode_utf8(digest_input(other_path, other_body)),
    ensures
        path == other_path,
        body == other_body,
{
    let input = digest_input(path, body);
    let other = digest_input(other_path, other_body);
    assert(input == other) by {
        vstd::utf8::encode_utf8_decode_utf8(input);
        vstd::utf8::encode_utf8_decode_utf8(other);
    }
    split_parts_at_a_separator(path, '\n', body);
    split_parts_at_a_separator(other_path, '\n', other_body);
    split_leaves_a_plain_text_whole(path, '\n');
    split_leaves_a_plain_text_whole(other_path, '\n');
    assert((seq![path] + split(body, '\n'))[0] == path);
    assert((seq![other_path] + split(other_body, '\n'))[0] == other_path);
    assert(input.skip(path.len() as int + 1) =~= body);
    assert(other.skip(path.len() as int + 1) =~= other_body);
}

} // verus!
