//! Laws of signed files.
use vstd::prelude::*;
#[allow(unused_imports)]
use crate::signature::{
    digest_input, digest_of, header, hex, hex_digit, is_tampered, marked, sha256, signed, stacked,
};
#[allow(unused_imports)]
use crate::text::{joined, split};
#[allow(unused_imports)]
use vstd::utf8::encode_utf8;

verus! {

/// Each byte is written as two hexadecimal digits, the higher one first, in its
/// place.
pub proof fn each_byte_is_two_digits(data: Seq<u8>, i: int)
    ensures
        hex(data).len() == 2 * data.len(),
        0 <= i < data.len() ==> hex(data)[2 * i] == "0123456789abcdef"@[data[i] as int / 16]
            && hex(data)[2 * i + 1] == "0123456789abcdef"@[data[i] as int % 16],
    decreases data.len(),
{
    reveal_strlit("0123456789abcdef");
    if data.len() > 0 {
        each_byte_is_two_digits(data.drop_last(), i);
        let last = data.last();
        assert(hex_digit(last / 16) == "0123456789abcdef"@[last as int / 16]);
        assert(hex_digit(last % 16) == "0123456789abcdef"@[last as int % 16]);
    }
}

/// A digest is the hash of the path, a line feed and the body, written in
/// hexadecimal digits behind the name of the hash.
pub proof fn a_digest_is_the_hash_of_path_and_body(path: Seq<char>, body: Seq<char>)
    ensures
        digest_of(path, body) == "sha256:"@ + hex(sha256(encode_utf8(path + "\n"@ + body))),
{
    reveal_strlit("\n");
    assert(digest_input(path, body) =~= path + "\n"@ + body);
}

proof fn stacking_goes_line_by_line(lines: Seq<Seq<char>>, line: Seq<char>)
    ensures
        stacked(Seq::empty()) == Seq::<char>::empty(),
        stacked(lines.push(line)) == stacked(lines) + line + "\n"@,
{
    reveal_strlit("\n");
    assert(lines.push(line).drop_last() =~= lines);
    assert(stacked(lines.push(line)) =~= stacked(lines) + line + "\n"@);
}

/// A file in the style of PHP is written as this text.
#[verifier::rlimit(60)]
pub proof fn what_a_file_in_the_style_of_php_is(path: Seq<char>, body: Seq<char>)
    ensures
        signed(path, body, "php"@)
            == "<?php\n\ndeclare(strict_types=1);\n\n/*\n * GENERATED BY Elephentity — DO NOT EDIT.\n *\n * Regenerate with `eleph generate`. This file is machine-owned: edits are\n * detected by the build and rejected.\n *\n * path:   "@
            + path + "\n * digest: "@ + digest_of(path, body) + "\n */\n\n"@ + body,
{
    let hash = digest_of(path, body);
    let above = seq![
        "<?php"@,
        ""@,
        "declare(strict_types=1);"@,
        ""@,
        "/*"@,
        " * GENERATED BY Elephentity — DO NOT EDIT."@,
        " *"@,
        " * Regenerate with `eleph generate`. This file is machine-owned: edits are"@,
        " * detected by the build and rejected."@,
        " *"@,
    ];
    let lines = header(path, hash, "php"@);
    php_lines_above(above);
    let a = above.push(" * path:   "@ + path);
    let b = a.push(" * digest: "@ + hash);
    let c = b.push(" */"@);
    let d = c.push(""@);
    assert(lines =~= d);
    stacking_goes_line_by_line(above, " * path:   "@ + path);
    stacking_goes_line_by_line(a, " * digest: "@ + hash);
    stacking_goes_line_by_line(b, " */"@);
    stacking_goes_line_by_line(c, ""@);
    reveal_strlit("\n");
    reveal_strlit("");
    reveal_strlit(" */");
    reveal_strlit(" * path:   ");
    reveal_strlit(" * digest: ");
    reveal_strlit("\n * digest: ");
    reveal_strlit("\n */\n\n");
    assert("\n"@ + " * digest: "@ =~= "\n * digest: "@);
    assert("\n"@ + " */"@ + "\n"@ + ""@ + "\n"@ =~= "\n */\n\n"@);
    let top = stacked(above) + " * path:   "@;
    assert(stacked(lines) + body =~= top + path + ("\n"@ + " * digest: "@) + hash + ("\n"@ + " */"@
        + "\n"@ + ""@ + "\n"@) + body);
}

#[verifier::rlimit(60)]
proof fn php_lines_above(lines: Seq<Seq<char>>)
    requires
        lines == seq![
            "<?php"@,
            ""@,
            "declare(strict_types=1);"@,
            ""@,
            "/*"@,
            " * GENERATED BY Elephentity — DO NOT EDIT."@,
            " *"@,
            " * Regenerate with `eleph generate`. This file is machine-owned: edits are"@,
            " * detected by the build and rejected."@,
            " *"@,
        ],
    ensures
        stacked(lines) + " * path:   "@
            == "<?php\n\ndeclare(strict_types=1);\n\n/*\n * GENERATED BY Elephentity — DO NOT EDIT.\n *\n * Regenerate with `eleph generate`. This file is machine-owned: edits are\n * detected by the build and rejected.\n *\n * path:   "@,
{
    reveal_strlit("\n");
    reveal_strlit("<?php");
    reveal_strlit("");
    reveal_strlit("declare(strict_types=1);");
    reveal_strlit("/*");
    reveal_strlit(" * GENERATED BY Elephentity — DO NOT EDIT.");
    reveal_strlit(" *");
    reveal_strlit(" * Regenerate with `eleph generate`. This file is machine-owned: edits are");
    reveal_strlit(" * detected by the build and rejected.");
    reveal_strlit(" * path:   ");
    reveal_strlit(
        "<?php\n\ndeclare(strict_types=1);\n\n/*\n * GENERATED BY Elephentity — DO NOT EDIT.\n *\n * Regenerate with `eleph generate`. This file is machine-owned: edits are\n * detected by the build and rejected.\n *\n * path:   ",
    );
    let none = Seq::<Seq<char>>::empty();
    let l1 = none.push("<?php"@);
    let l2 = l1.push(""@);
    let l3 = l2.push("declare(strict_types=1);"@);
    let l4 = l3.push(""@);
    let l5 = l4.push("/*"@);
    let l6 = l5.push(" * GENERATED BY Elephentity — DO NOT EDIT."@);
    let l7 = l6.push(" *"@);
    let l8 = l7.push(
        " * Regenerate with `eleph generate`. This file is machine-owned: edits are"@,
    );
    let l9 = l8.push(" * detected by the build and rejected."@);
    stacking_goes_line_by_line(none, "<?php"@);
    stacking_goes_line_by_line(l1, ""@);
    stacking_goes_line_by_line(l2, "declare(strict_types=1);"@);
    stacking_goes_line_by_line(l3, ""@);
    stacking_goes_line_by_line(l4, "/*"@);
    stacking_goes_line_by_line(l5, " * GENERATED BY Elephentity — DO NOT EDIT."@);
    stacking_goes_line_by_line(l6, " *"@);
    stacking_goes_line_by_line(
        l7,
        " * Regenerate with `eleph generate`. This file is machine-owned: edits are"@,
    );
    stacking_goes_line_by_line(l8, " * detected by the build and rejected."@);
    stacking_goes_line_by_line(l9, " *"@);
    assert(lines =~= l9.push(" *"@));
    assert(stacked(lines) + " * path:   "@
        =~= "<?php\n\ndeclare(strict_types=1);\n\n/*\n * GENERATED BY Elephentity — DO NOT EDIT.\n *\n * Regenerate with `eleph generate`. This file is machine-owned: edits are\n * detected by the build and rejected.\n *\n * path:   "@);
}

/// A file in another style is written as this text.
#[verifier::rlimit(60)]
pub proof fn what_a_file_with_line_comments_is(
    path: Seq<char>,
    body: Seq<char>,
    style: Seq<char>,
)
    requires
        style != "php"@,
    ensures
        signed(path, body, style)
            == "// GENERATED BY Elephentity — DO NOT EDIT.\n//\n// Regenerate with `eleph generate`. This file is machine-owned: edits are\n// detected by the build and rejected.\n//\n// path:   "@
            + path + "\n// digest: "@ + digest_of(path, body) + "\n\n"@ + body,
{
    let hash = digest_of(path, body);
    let above = seq![
        "// GENERATED BY Elephentity — DO NOT EDIT."@,
        "//"@,
        "// Regenerate with `eleph generate`. This file is machine-owned: edits are"@,
        "// detected by the build and rejected."@,
        "//"@,
    ];
    let lines = header(path, hash, style);
    comment_lines_above(above);
    let a = above.push("// path:   "@ + path);
    let b = a.push("// digest: "@ + hash);
    let c = b.push(""@);
    assert(lines =~= c);
    stacking_goes_line_by_line(above, "// path:   "@ + path);
    stacking_goes_line_by_line(a, "// digest: "@ + hash);
    stacking_goes_line_by_line(b, ""@);
    reveal_strlit("\n");
    reveal_strlit("");
    reveal_strlit("// path:   ");
    reveal_strlit("// digest: ");
    reveal_strlit("\n// digest: ");
    reveal_strlit("\n\n");
    assert("\n"@ + "// digest: "@ =~= "\n// digest: "@);
    assert("\n"@ + ""@ + "\n"@ =~= "\n\n"@);
    let top = stacked(above) + "// path:   "@;
    assert(stacked(lines) + body =~= top + path + ("\n"@ + "// digest: "@) + hash + ("\n"@ + ""@
        + "\n"@) + body);
}

#[verifier::rlimit(60)]
proof fn comment_lines_above(lines: Seq<Seq<char>>)
    requires
        lines == seq![
            "// GENERATED BY Elephentity — DO NOT EDIT."@,
            "//"@,
            "// Regenerate with `eleph generate`. This file is machine-owned: edits are"@,
            "// detected by the build and rejected."@,
            "//"@,
        ],
    ensures
        stacked(lines) + "// path:   "@
            == "// GENERATED BY Elephentity — DO NOT EDIT.\n//\n// Regenerate with `eleph generate`. This file is machine-owned: edits are\n// detected by the build and rejected.\n//\n// path:   "@,
{
    reveal_strlit("\n");
    reveal_strlit("// GENERATED BY Elephentity — DO NOT EDIT.");
    reveal_strlit("//");
    reveal_strlit("// Regenerate with `eleph generate`. This file is machine-owned: edits are");
    reveal_strlit("// detected by the build and rejected.");
    reveal_strlit("// path:   ");
    reveal_strlit(
        "// GENERATED BY Elephentity — DO NOT EDIT.\n//\n// Regenerate with `eleph generate`. This file is machine-owned: edits are\n// detected by the build and rejected.\n//\n// path:   ",
    );
    let none = Seq::<Seq<char>>::empty();
    let l1 = none.push("// GENERATED BY Elephentity — DO NOT EDIT."@);
    let l2 = l1.push("//"@);
    let l3 = l2.push(
        "// Regenerate with `eleph generate`. This file is machine-owned: edits are"@,
    );
    let l4 = l3.push("// detected by the build and rejected."@);
    stacking_goes_line_by_line(none, "// GENERATED BY Elephentity — DO NOT EDIT."@);
    stacking_goes_line_by_line(l1, "//"@);
    stacking_goes_line_by_line(
        l2,
        "// Regenerate with `eleph generate`. This file is machine-owned: edits are"@,
    );
    stacking_goes_line_by_line(l3, "// detected by the build and rejected."@);
    stacking_goes_line_by_line(l4, "//"@);
    assert(lines =~= l4.push("//"@));
    assert(stacked(lines) + "// path:   "@
        =~= "// GENERATED BY Elephentity — DO NOT EDIT.\n//\n// Regenerate with `eleph generate`. This file is machine-owned: edits are\n// detected by the build and rejected.\n//\n// path:   "@);
}

/// How many lines the header of a file has: as many as its text above the body.
pub open spec fn lines_of_header(style: Seq<char>) -> int {
    if style == "php"@ {
        14
    } else {
        8
    }
}

/// What stands before the digest in a header.
pub open spec fn before_the_digest(style: Seq<char>) -> Seq<char> {
    if style == "php"@ {
        " * digest: "@
    } else {
        "// digest: "@
    }
}

/// What stands below the lines of a header.
pub open spec fn below_the_header(contents: Seq<char>, style: Seq<char>) -> Seq<char> {
    let lines = split(contents, '\n');
    if lines_of_header(style) <= lines.len() {
        joined(lines.skip(lines_of_header(style)), "\n"@)
    } else {
        Seq::empty()
    }
}

/// A file is tampered with exactly where one of the lines of its header shows a
/// digest, and the first that does shows another than that of the path and of
/// what stands below the header.
pub proof fn the_first_digest_shown_decides(
    path: Seq<char>,
    contents: Seq<char>,
    style: Seq<char>,
    i: int,
    hash: Seq<char>,
)
    ensures
        (0 <= i < lines_of_header(style) && i < split(contents, '\n').len() && split(
            contents,
            '\n',
        )[i] == before_the_digest(style) + hash && (forall|j: int|
            0 <= j < i ==> !before_the_digest(style).is_prefix_of(
                #[trigger] split(contents, '\n')[j],
            ))) ==> (is_tampered(path, contents, style) <==> hash != digest_of(
            path,
            below_the_header(contents, style),
        )),
        (forall|j: int|
            0 <= j < lines_of_header(style) && j < split(contents, '\n').len()
                ==> !before_the_digest(style).is_prefix_of(#[trigger] split(contents, '\n')[j]))
            ==> !is_tampered(path, contents, style),
{
    let lines = split(contents, '\n');
    let mark = before_the_digest(style);
    let count = lines_of_header(style);
    let end: int = if count < lines.len() {
        count
    } else {
        lines.len() as int
    };
    let top = lines.take(end);
    if forall|j: int|
        0 <= j < count && j < lines.len() ==> !mark.is_prefix_of(#[trigger] lines[j]) {
        assert forall|j: int| 0 <= j < top.len() implies !mark.is_prefix_of(#[trigger] top[j]) by {
            assert(top[j] == lines[j]);
        }
        nothing_is_marked(top, mark);
    }
    if 0 <= i < count && i < lines.len() && lines[i] == mark + hash && (forall|j: int|
        0 <= j < i ==> !mark.is_prefix_of(#[trigger] lines[j])) {
        assert forall|j: int| 0 <= j < i implies !mark.is_prefix_of(#[trigger] top[j]) by {
            assert(top[j] == lines[j]);
        }
        the_first_is_marked(top, mark, hash, i);
        if count > lines.len() {
            assert(lines.skip(end) =~= Seq::empty());
        }
        if count == lines.len() {
            assert(lines.skip(end) =~= lines.skip(count));
        }
    }
}

proof fn nothing_is_marked(lines: Seq<Seq<char>>, mark: Seq<char>)
    requires
        forall|j: int| 0 <= j < lines.len() ==> !mark.is_prefix_of(#[trigger] lines[j]),
    ensures
        marked(lines, mark) is None,
    decreases lines.len(),
{
    if lines.len() > 0 {
        let behind = lines.drop_first();
        assert(!mark.is_prefix_of(lines[0]));
        assert forall|j: int| 0 <= j < behind.len() implies !mark.is_prefix_of(
            #[trigger] behind[j],
        ) by {
            assert(behind[j] == lines[j + 1]);
        }
        nothing_is_marked(behind, mark);
    }
}

proof fn the_first_is_marked(lines: Seq<Seq<char>>, mark: Seq<char>, hash: Seq<char>, i: int)
    requires
        0 <= i < lines.len(),
        lines[i] == mark + hash,
        forall|j: int| 0 <= j < i ==> !mark.is_prefix_of(#[trigger] lines[j]),
    ensures
        marked(lines, mark) == Some(hash),
    decreases lines.len(),
{
    if i == 0 {
        assert(mark.is_prefix_of(lines[0]));
        assert(lines[0].skip(mark.len() as int) =~= hash);
    } else {
        let behind = lines.drop_first();
        assert(!mark.is_prefix_of(lines[0]));
        assert forall|j: int| 0 <= j < i - 1 implies !mark.is_prefix_of(#[trigger] behind[j]) by {
            assert(behind[j] == lines[j + 1]);
        }
        the_first_is_marked(behind, mark, hash, i - 1);
    }
}

} // verus!
