//! A minimal runtime formatter for flag templates.
//!
//! A template holds literal text, `{}` placeholders that take the arguments in order,
//! and the escapes `{{` and `}}` for literal braces. Every argument must be used.
use vstd::prelude::*;

use crate::text::{chars_of, push_char, push_text};

verus! {

/// Why a template could not be rendered.
#[derive(Debug, Clone, Copy, PartialEq, Eq, Structural)]
pub enum FormatError {
    /// A `{` or `}` that is neither an escape nor part of a `{}` placeholder.
    UnmatchedBrace,
    /// The number of placeholders differs from the number of arguments.
    ArgumentCount,
}

/// Prepends `out` to a successful rendering and passes errors through.
pub open spec fn prepend(out: Seq<char>, r: Result<Seq<char>, FormatError>) -> Result<Seq<char>, FormatError> {
    match r {
        Ok(s) => Ok(out + s),
        Err(e) => Err(e),
    }
}

/// The rendering of template `fmt` with arguments `args`, scanning from the left.
pub open spec fn render(fmt: Seq<char>, args: Seq<Seq<char>>) -> Result<Seq<char>, FormatError>
    decreases fmt.len(),
{
    if fmt.len() == 0 {
        if args.len() == 0 {
            Ok(Seq::empty())
        } else {
            Err(FormatError::ArgumentCount)
        }
    } else if fmt[0] == '{' {
        if fmt.len() >= 2 && fmt[1] == '{' {
            prepend(seq!['{'], render(fmt.skip(2), args))
        } else if fmt.len() >= 2 && fmt[1] == '}' {
            if args.len() == 0 {
                Err(FormatError::ArgumentCount)
            } else {
                prepend(args[0], render(fmt.skip(2), args.skip(1)))
            }
        } else {
            Err(FormatError::UnmatchedBrace)
        }
    } else if fmt[0] == '}' {
        if fmt.len() >= 2 && fmt[1] == '}' {
            prepend(seq!['}'], render(fmt.skip(2), args))
        } else {
            Err(FormatError::UnmatchedBrace)
        }
    } else {
        prepend(seq![fmt[0]], render(fmt.skip(1), args))
    }
}

/// The character sequences of a slice of string arguments.
pub open spec fn arg_views(args: Seq<&str>) -> Seq<Seq<char>> {
    args.map_values(|a: &str| a@)
}

proof fn lemma_prepend_assoc(a: Seq<char>, b: Seq<char>, r: Result<Seq<char>, FormatError>)
    ensures
        prepend(a, prepend(b, r)) == prepend(a + b, r),
{
    if let Ok(s) = r {
        assert(a + (b + s) =~= (a + b) + s);
    }
}

/// Renders `fmt`, replacing each `{}` by the next argument and each `{{` / `}}` by a brace.
pub fn format(fmt: &str, args: &[&str]) -> (r: Result<String, FormatError>)
    ensures
        match r {
            Ok(s) => render(fmt@, arg_views(args@)) == Ok::<Seq<char>, FormatError>(s@),
            Err(e) => render(fmt@, arg_views(args@)) == Err::<Seq<char>, FormatError>(e),
        },
{
    let chars = chars_of(fmt);
    let ghost all = arg_views(args@);
    let mut out = String::new();
    let mut i: usize = 0;
    let mut k: usize = 0;
    proof {
        assert(fmt@.skip(0) =~= fmt@);
        assert(all.skip(0) =~= all);
        if let Ok(t) = render(fmt@, all) {
            assert(Seq::<char>::empty() + t =~= t);
        }
    }
    while i < chars.len()
        invariant
            chars@ == fmt@,
            all == arg_views(args@),
            i <= chars.len(),
            k <= args@.len(),
            prepend(out@, render(fmt@.skip(i as int), all.skip(k as int))) == render(fmt@, all),
        decreases chars.len() - i,
    {
        let ghost rest = fmt@.skip(i as int);
        let ghost rargs = all.skip(k as int);
        let ghost before = out@;
        let c = chars[i];
        if c == '{' {
            if i + 1 < chars.len() && chars[i + 1] == '{' {
                push_char(&mut out, '{');
                proof {
                    assert(rest.skip(2) =~= fmt@.skip(i + 2));
                    lemma_prepend_assoc(before, seq!['{'], render(rest.skip(2), rargs));
                    assert(before.push('{') =~= before + seq!['{']);
                }
                i = i + 2;
            } else if i + 1 < chars.len() && chars[i + 1] == '}' {
                if k >= args.len() {
                    return Err(FormatError::ArgumentCount);
                }
                push_text(&mut out, args[k]);
                proof {
                    assert(rest.skip(2) =~= fmt@.skip(i + 2));
                    assert(rargs.skip(1) =~= all.skip(k + 1));
                    assert(rargs[0] == args@[k as int]@);
                    lemma_prepend_assoc(before, rargs[0], render(rest.skip(2), rargs.skip(1)));
                }
                i = i + 2;
                k = k + 1;
            } else {
                return Err(FormatError::UnmatchedBrace);
            }
        } else if c == '}' {
            if i + 1 < chars.len() && chars[i + 1] == '}' {
                push_char(&mut out, '}');
                proof {
                    assert(rest.skip(2) =~= fmt@.skip(i + 2));
                    lemma_prepend_assoc(before, seq!['}'], render(rest.skip(2), rargs));
                    assert(before.push('}') =~= before + seq!['}']);
                }
                i = i + 2;
            } else {
                return Err(FormatError::UnmatchedBrace);
            }
        } else {
            push_char(&mut out, c);
            proof {
                assert(rest.skip(1) =~= fmt@.skip(i + 1));
                lemma_prepend_assoc(before, seq![c], render(rest.skip(1), rargs));
                assert(before.push(c) =~= before + seq![c]);
            }
            i = i + 1;
        }
    }
    proof {
        assert(fmt@.skip(i as int) =~= Seq::<char>::empty());
    }
    if k < args.len() {
        return Err(FormatError::ArgumentCount);
    }
    proof {
        assert(out@ + Seq::<char>::empty() =~= out@);
    }
    Ok(out)
}

} // verus!
