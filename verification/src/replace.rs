use vstd::prelude::*;

use crate::context::Details;
use crate::error::Error;
use crate::path::AbsPath;
use crate::strings::str_eq;

verus! {

broadcast use vstd::std_specs::vec::group_vec_axioms;

/// A caller-supplied named argument for placeholder substitution.
pub struct NamedArg {
    pub name: String,
    pub value: String,
}

/// The value bound to `name`, if any.
pub open spec fn arg_lookup(args: Seq<NamedArg>, name: Seq<char>) -> Option<Seq<char>>
    decreases args.len(),
{
    if args.len() == 0 {
        None
    } else if args[0].name@ == name {
        Some(args[0].value@)
    } else {
        arg_lookup(args.drop_first(), name)
    }
}

/// A path rendered as text: `/` for the root, else each component behind a
/// `/`.
pub open spec fn render_spec(p: Seq<Seq<char>>) -> Seq<char>
    decreases p.len(),
{
    if p.len() == 0 {
        "/"@
    } else {
        render_parts(p)
    }
}

/// The non-root rendering: each component behind a `/`.
pub open spec fn render_parts(p: Seq<Seq<char>>) -> Seq<char>
    decreases p.len(),
{
    if p.len() == 0 {
        Seq::empty()
    } else {
        render_parts(p.drop_last()) + "/"@ + p.last()
    }
}

/// Render a path as text.
pub fn render(p: &AbsPath) -> (r: String)
    ensures
        r@ == render_spec(p@),
{
    if p.components.len() == 0 {
        let r = String::from_str("/");
        return r;
    }
    let mut s = String::new();
    let mut i: usize = 0;
    proof {
        assert(p@.take(0) =~= Seq::<Seq<char>>::empty());
    }
    while i < p.components.len()
        invariant
            i <= p@.len(),
            p@.len() == p.components@.len(),
            s@ == render_parts(p@.take(i as int)),
        decreases p@.len() - i,
    {
        s.append("/");
        s.append(p.components[i].as_str());
        proof {
            let q = p@.take(i + 1);
            assert(q.drop_last() =~= p@.take(i as int));
            assert(q.last() == p@[i as int]);
            assert(p@[i as int] == p.components@[i as int]@);
        }
        i = i + 1;
    }
    proof {
        assert(p@.take(p@.len() as int) =~= p@);
    }
    s
}

/// The position of the first `}}` at or after `j`.
pub open spec fn find_close(s: Seq<char>, j: int) -> Option<int>
    decreases s.len() - j,
{
    if j < 0 || j + 1 >= s.len() {
        None
    } else if s[j] == '}' && s[j + 1] == '}' {
        Some(j)
    } else {
        find_close(s, j + 1)
    }
}

/// Where `find_close` points, a `}}` stands in bounds, and nothing closer.
pub proof fn lemma_find_close(s: Seq<char>, j0: int)
    requires
        0 <= j0,
    ensures
        match find_close(s, j0) {
            Some(j) => j0 <= j && 0 <= j && j + 1 < s.len() && s[j] == '}' && s[j + 1] == '}'
                && forall|p: int| j0 <= p < j ==> !(#[trigger] s[p] == '}' && s[p + 1] == '}'),
            None => forall|p: int|
                j0 <= p < s.len() - 1 ==> !(#[trigger] s[p] == '}' && s[p + 1] == '}'),
        },
    decreases s.len() - j0,
{
    if j0 < 0 || j0 + 1 >= s.len() {
    } else if s[j0] == '}' && s[j0 + 1] == '}' {
    } else {
        lemma_find_close(s, j0 + 1);
    }
}

/// No newline stands in `s[from..to)`.
pub open spec fn no_newline(s: Seq<char>, from: int, to: int) -> bool {
    forall|p: int| from <= p < to ==> s[p] != '\n'
}

/// Where a generic `{{name}}` token that opens at `i` closes: the first
/// `}}` leaving a non-empty name without newlines, as the original
/// pattern's lazy `.+?` found it.
pub open spec fn token_close(s: Seq<char>, i: int) -> Option<int> {
    match find_close(s, i + 3) {
        None => None,
        Some(j) => if no_newline(s, i + 2, j) {
            Some(j)
        } else {
            None
        },
    }
}

/// Whether the workspace placeholder stands at `i`.
pub open spec fn at_workspace(s: Seq<char>, i: int) -> bool {
    i + 13 <= s.len() && s.subrange(i, i + 13) == "{{workspace}}"@
}

/// Whether the src placeholder stands at `i`.
pub open spec fn at_src(s: Seq<char>, i: int) -> bool {
    i + 7 <= s.len() && s.subrange(i, i + 7) == "{{src}}"@
}

/// The expansion of a command template from position `i` on, and whether
/// any generic placeholder stayed unresolved.
pub struct ExpandRes {
    pub text: Seq<char>,
    pub missing: bool,
}

/// One left-to-right pass over the command: the literal workspace and src
/// placeholders take the rendered paths, a generic `{{name}}` takes the
/// caller's binding of `name` (an unbound name substitutes empty text and
/// marks the expansion failed), and every other character is copied.
pub open spec fn expand_from(
    cmd: Seq<char>,
    i: int,
    ws: Seq<char>,
    src: Seq<char>,
    args: Seq<NamedArg>,
) -> ExpandRes
    decreases cmd.len() - i,
    via expand_from_decreases
{
    if i < 0 || i >= cmd.len() {
        ExpandRes { text: Seq::empty(), missing: false }
    } else if at_workspace(cmd, i) {
        let rest = expand_from(cmd, i + 13, ws, src, args);
        ExpandRes { text: ws + rest.text, missing: rest.missing }
    } else if at_src(cmd, i) {
        let rest = expand_from(cmd, i + 7, ws, src, args);
        ExpandRes { text: src + rest.text, missing: rest.missing }
    } else if cmd[i] == '{' && i + 1 < cmd.len() && cmd[i + 1] == '{' && token_close(cmd, i)
        is Some {
        let j = token_close(cmd, i)->0;
        let name = cmd.subrange(i + 2, j);
        let rest = expand_from(cmd, j + 2, ws, src, args);
        match arg_lookup(args, name) {
            Some(v) => ExpandRes { text: v + rest.text, missing: rest.missing },
            None => ExpandRes { text: rest.text, missing: true },
        }
    } else {
        let rest = expand_from(cmd, i + 1, ws, src, args);
        ExpandRes { text: seq![cmd[i]] + rest.text, missing: rest.missing }
    }
}

#[via_fn]
proof fn expand_from_decreases(
    cmd: Seq<char>,
    i: int,
    ws: Seq<char>,
    src: Seq<char>,
    args: Seq<NamedArg>,
) {
    if 0 <= i {
        lemma_find_close(cmd, i + 3);
    }
}

/// Find the first `}}` at or after `j0`.
fn find_close_exec(s: &str, j0: usize) -> (r: Option<usize>)
    requires
        j0 <= s@.len(),
    ensures
        match r {
            Some(j) => find_close(s@, j0 as int) == Some(j as int),
            None => find_close(s@, j0 as int) is None,
        },
{
    let n = s.unicode_len();
    let mut j: usize = j0;
    while n - j >= 2
        invariant
            j0 <= j,
            j <= n,
            n == s@.len(),
            find_close(s@, j0 as int) == find_close(s@, j as int),
        decreases n - j,
    {
        if s.get_char(j) == '}' && s.get_char(j + 1) == '}' {
            return Some(j);
        }
        j = j + 1;
    }
    None
}

/// Whether `s[from..to)` is free of newlines.
fn no_newline_exec(s: &str, from: usize, to: usize) -> (r: bool)
    requires
        to <= s@.len(),
    ensures
        r == no_newline(s@, from as int, to as int),
{
    let mut p: usize = from;
    while p < to
        invariant
            from <= p,
            to <= s@.len(),
            forall|q: int| from <= q < p ==> s@[q] != '\n',
        decreases to - p,
    {
        if s.get_char(p) == '\n' {
            return false;
        }
        p = p + 1;
    }
    true
}

/// Find the value bound to `name`.
fn arg_find<'a>(args: &'a Vec<NamedArg>, name: &str) -> (r: Option<&'a String>)
    ensures
        match r {
            Some(v) => arg_lookup(args@, name@) == Some(v@),
            None => arg_lookup(args@, name@) is None,
        },
{
    let mut k: usize = 0;
    proof {
        assert(args@.skip(0) =~= args@);
    }
    while k < args.len()
        invariant
            k <= args@.len(),
            arg_lookup(args@, name@) == arg_lookup(args@.skip(k as int), name@),
        decreases args@.len() - k,
    {
        proof {
            assert(args@.skip(k as int).len() > 0);
            assert(args@.skip(k as int)[0] == args@[k as int]);
        }
        if str_eq(args[k].name.as_str(), name) {
            return Some(&args[k].value);
        }
        proof {
            assert(args@.skip(k as int).drop_first() =~= args@.skip(k + 1));
        }
        k = k + 1;
    }
    proof {
        assert(args@.skip(args@.len() as int).len() == 0);
    }
    None
}

/// Add the necessary variables to the command: substitute `{{workspace}}`
/// and `{{src}}` with the project's rendered paths and every other
/// `{{name}}` with the caller's binding of `name`.  All tokens are
/// processed; if any name is unbound the whole expansion fails with a
/// missing-argument error carrying the original command text.
pub fn replace_command(command: &String, details: &Details, args: &Vec<NamedArg>) -> (r: Result<
    String,
    Error,
>)
    ensures
        ({
            let ex = expand_from(
                command@,
                0,
                render_spec(details.workspace@),
                render_spec(details.src@),
                args@,
            );
            match r {
                Ok(s) => !ex.missing && s@ == ex.text,
                Err(e) => ex.missing && e == (Error::MissingArgument { command: *command }),
            }
        }),
{
    let cs = command.as_str();
    let n = cs.unicode_len();
    let ws = render(&details.workspace);
    let srcs = render(&details.src);
    let ghost wsv = render_spec(details.workspace@);
    let ghost srcv = render_spec(details.src@);
    let mut out = String::new();
    let mut missing = false;
    let mut i: usize = 0;
    proof {
        assert(out@ + expand_from(command@, 0, wsv, srcv, args@).text =~= expand_from(
            command@,
            0,
            wsv,
            srcv,
            args@,
        ).text);
    }
    while i < n
        invariant
            i <= n,
            n == command@.len(),
            cs@ == command@,
            ws@ == wsv,
            srcs@ == srcv,
            expand_from(command@, 0, wsv, srcv, args@).text == out@ + expand_from(
                command@,
                i as int,
                wsv,
                srcv,
                args@,
            ).text,
            expand_from(command@, 0, wsv, srcv, args@).missing == (missing || expand_from(
                command@,
                i as int,
                wsv,
                srcv,
                args@,
            ).missing),
        decreases n - i,
    {
        let ghost pre = out@;
        let ghost rest = expand_from(command@, i as int, wsv, srcv, args@);
        if n - i >= 13 && str_eq(cs.substring_char(i, i + 13), "{{workspace}}") {
            out.append(ws.as_str());
            proof {
                assert(at_workspace(command@, i as int));
                assert(pre + rest.text =~= out@ + expand_from(
                    command@,
                    i + 13 as int,
                    wsv,
                    srcv,
                    args@,
                ).text);
            }
            i = i + 13;
        } else if n - i >= 7 && str_eq(cs.substring_char(i, i + 7), "{{src}}") {
            out.append(srcs.as_str());
            proof {
                assert(at_src(command@, i as int));
                assert(pre + rest.text =~= out@ + expand_from(
                    command@,
                    i + 7 as int,
                    wsv,
                    srcv,
                    args@,
                ).text);
            }
            i = i + 7;
        } else {
            let c = cs.get_char(i);
            let mut token_done = false;
            if c == '{' && i + 1 < n && cs.get_char(i + 1) == '{' && n - i >= 5 {
                match find_close_exec(cs, i + 3) {
                    Some(j) => {
                        proof {
                            lemma_find_close(command@, i + 3);
                        }
                        if no_newline_exec(cs, i + 2, j) {
                            proof {
                                assert(token_close(command@, i as int) == Some(j as int));
                            }
                            let name = cs.substring_char(i + 2, j);
                            match arg_find(args, name) {
                                Some(v) => {
                                    out.append(v.as_str());
                                },
                                None => {
                                    missing = true;
                                },
                            }
                            proof {
                                assert(pre + rest.text =~= out@ + expand_from(
                                    command@,
                                    j + 2 as int,
                                    wsv,
                                    srcv,
                                    args@,
                                ).text);
                            }
                            i = j + 2;
                            token_done = true;
                        } else {
                            proof {
                                assert(token_close(command@, i as int) is None);
                            }
                        }
                    },
                    None => {
                        proof {
                            assert(token_close(command@, i as int) is None);
                        }
                    },
                }
            }
            if !token_done {
                let one = cs.substring_char(i, i + 1);
                out.append(one);
                proof {
                    assert(one@ =~= seq![command@[i as int]]);
                    assert(pre + rest.text =~= out@ + expand_from(
                        command@,
                        i + 1 as int,
                        wsv,
                        srcv,
                        args@,
                    ).text);
                }
                i = i + 1;
            }
        }
    }
    if missing {
        Err(Error::MissingArgument { command: command.clone() })
    } else {
        proof {
            assert(out@ + expand_from(command@, n as int, wsv, srcv, args@).text =~= out@);
        }
        Ok(out)
    }
}

} // verus!
