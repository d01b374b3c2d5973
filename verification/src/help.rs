//! Rendering the help message from the declared flags, and the type tags the
//! accessors record for it.

use vstd::prelude::*;
use vstd::string::StrSliceExecFns;
use vstd::string::StringExecFns;

verus! {

/// The declared kind of a flag's value. Purely cosmetic: it only decides the
/// tag word shown in the usage line.
#[derive(Clone, Copy, PartialEq, Eq, Structural)]
pub enum Type {
    String,
    Number,
    Double,
    Unsigned,
    Bool,
    Complex,
}

/// The tag word shown for each declared kind.
pub open spec fn tag_label(t: Type) -> Seq<char> {
    match t {
        Type::String => "string"@,
        Type::Number => "integer"@,
        Type::Double => "float"@,
        Type::Unsigned => "unsigned"@,
        Type::Bool => "bool"@,
        Type::Complex => "complex"@,
    }
}

impl Type {
    /// The tag word shown in help output.
    pub fn label(&self) -> (r: &'static str)
        ensures
            r@ == tag_label(*self),
    {
        match self {
            Type::String => "string",
            Type::Number => "integer",
            Type::Double => "float",
            Type::Unsigned => "unsigned",
            Type::Bool => "bool",
            Type::Complex => "complex",
        }
    }
}

/// The description list as the contracts see it: key, description, tag.
pub open spec fn dm_view(entries: Seq<(String, String, Type)>) -> Seq<(Seq<char>, Seq<char>, Type)> {
    entries.map_values(|e: (String, String, Type)| (e.0@, e.1@, e.2))
}

/// The program name shown in the usage line: the first raw argument.
pub open spec fn prog_of(args: Seq<Seq<char>>) -> Seq<char> {
    if args.len() > 0 {
        args[0]
    } else {
        Seq::empty()
    }
}

/// `n` spaces.
pub open spec fn spaces(n: nat) -> Seq<char> {
    Seq::new(n, |i: int| ' ')
}

/// The pieces, joined with the separator between consecutive ones.
pub open spec fn join_with(items: Seq<Seq<char>>, sep: Seq<char>) -> Seq<char>
    decreases items.len(),
{
    if items.len() == 0 {
        Seq::empty()
    } else if items.len() == 1 {
        items[0]
    } else {
        join_with(items.drop_last(), sep) + sep + items.last()
    }
}

/// One declared flag as the usage line shows it.
pub open spec fn usage_item(e: (Seq<char>, Seq<char>, Type)) -> Seq<char> {
    "["@ + e.0 + ", "@ + tag_label(e.2) + "]"@
}

/// The usage line: the program name, then every declared flag.
pub open spec fn usage_line(prog: Seq<char>, ds: Seq<(Seq<char>, Seq<char>, Type)>) -> Seq<char> {
    "usage: "@ + prog + " "@ + join_with(ds.map_values(|e: (Seq<char>, Seq<char>, Type)| usage_item(e)), " "@)
}

/// What stands between a flag name and its description: padding up to the
/// fixed column, or a line break when the name itself reaches the column width.
pub open spec fn pad_block(klen: nat) -> Seq<char> {
    if klen >= 20 {
        spaces(20) + "  \n"@
    } else {
        spaces((20 - klen) as nat)
    }
}

/// One declared flag as the options block shows it.
pub open spec fn option_line(e: (Seq<char>, Seq<char>, Type)) -> Seq<char> {
    "  "@ + e.0 + pad_block(e.0.len()) + " "@ + e.1
}

/// The options block: a header, then one line per declared flag.
pub open spec fn options_block(ds: Seq<(Seq<char>, Seq<char>, Type)>) -> Seq<char> {
    "options:\n"@ + join_with(ds.map_values(|e: (Seq<char>, Seq<char>, Type)| option_line(e)), "\n"@)
}

/// The whole help text: the optional prefix, the usage line, the options block.
pub open spec fn render_help(
    prefix: Option<Seq<char>>,
    prog: Seq<char>,
    ds: Seq<(Seq<char>, Seq<char>, Type)>,
) -> Seq<char> {
    let body = usage_line(prog, ds) + "\n"@ + options_block(ds);
    match prefix {
        Some(p) => p + body,
        None => body,
    }
}

/// With no flags declared, the help text is the bare usage line and an empty
/// options block.
pub proof fn lemma_help_empty(prog: Seq<char>)
    ensures
        render_help(None, prog, Seq::empty()) == "usage: "@ + prog + " "@ + "\n"@ + "options:\n"@,
{
    let ds = Seq::<(Seq<char>, Seq<char>, Type)>::empty();
    assert(ds.map_values(|e: (Seq<char>, Seq<char>, Type)| usage_item(e)) =~= Seq::<Seq<char>>::empty());
    assert(ds.map_values(|e: (Seq<char>, Seq<char>, Type)| option_line(e)) =~= Seq::<Seq<char>>::empty());
    assert(render_help(None, prog, ds) =~= "usage: "@ + prog + " "@ + "\n"@ + "options:\n"@);
}

/// Appends `n` spaces.
fn append_spaces(out: &mut String, n: usize)
    ensures
        final(out)@ == old(out)@ + spaces(n as nat),
{
    let mut i: usize = 0;
    proof {
        assert(old(out)@ + spaces(0) =~= old(out)@);
    }
    while i < n
        invariant
            i <= n,
            out@ == old(out)@ + spaces(i as nat),
        decreases n - i,
    {
        out.append(" ");
        proof {
            reveal_strlit(" ");
            assert(spaces((i + 1) as nat) =~= spaces(i as nat) + " "@);
            assert(old(out)@ + spaces((i + 1) as nat) =~= (old(out)@ + spaces(i as nat)) + " "@);
        }
        i = i + 1;
    }
}

/// Builds the help text from the retained raw arguments and the declared
/// descriptions.
pub(crate) fn render_help_exec(
    prefix: &Option<String>,
    args: &Vec<String>,
    descs: &Vec<(String, String, Type)>,
) -> (r: String)
    ensures
        r@ == render_help(
            match prefix {
                Some(p) => Some(p@),
                None => None,
            },
            prog_of(crate::scan::arg_views(args@)),
            dm_view(descs@),
        ),
{
    let ghost ds = dm_view(descs@);
    let ghost prog = prog_of(crate::scan::arg_views(args@));
    let mut out = String::new();
    match prefix {
        Some(p) => {
            out.append(p.as_str());
        },
        None => {},
    }
    let ghost head = out@;
    out.append("usage: ");
    if args.len() > 0 {
        out.append(args[0].as_str());
    }
    out.append(" ");
    proof {
        assert(out@ =~= head + "usage: "@ + prog + " "@);
    }
    let ghost items = ds.map_values(|e: (Seq<char>, Seq<char>, Type)| usage_item(e));
    let n = descs.len();
    let mut i: usize = 0;
    while i < n
        invariant
            i <= n,
            n == descs@.len(),
            ds == dm_view(descs@),
            items == ds.map_values(|e: (Seq<char>, Seq<char>, Type)| usage_item(e)),
            out@ == head + "usage: "@ + prog + " "@ + join_with(items.take(i as int), " "@),
        decreases n - i,
    {
        let ghost before = out@;
        if i > 0 {
            out.append(" ");
        }
        out.append("[");
        out.append(descs[i].0.as_str());
        out.append(", ");
        out.append(descs[i].2.label());
        out.append("]");
        proof {
            assert(items[i as int] == usage_item(ds[i as int]));
            if i > 0 {
                assert(out@ =~= before + " "@ + items[i as int]);
                assert(items.take(i + 1 as int).drop_last() =~= items.take(i as int));
                assert(join_with(items.take(i + 1 as int), " "@) == join_with(
                    items.take(i as int),
                    " "@,
                ) + " "@ + items[i as int]);
                assert(out@ =~= head + "usage: "@ + prog + " "@ + join_with(
                    items.take(i + 1 as int),
                    " "@,
                ));
            } else {
                assert(out@ =~= before + items[i as int]);
                assert(join_with(items.take(1), " "@) == items[0]);
                assert(out@ =~= head + "usage: "@ + prog + " "@ + join_with(
                    items.take(i + 1 as int),
                    " "@,
                ));
            }
        }
        i = i + 1;
    }
    proof {
        assert(items.take(n as int) =~= items);
        assert(out@ =~= head + usage_line(prog, ds));
    }
    out.append("\n");
    out.append("options:\n");
    let ghost mid = head + usage_line(prog, ds) + "\n"@ + "options:\n"@;
    proof {
        assert(out@ =~= mid);
    }
    let ghost lines = ds.map_values(|e: (Seq<char>, Seq<char>, Type)| option_line(e));
    let mut i: usize = 0;
    while i < n
        invariant
            i <= n,
            n == descs@.len(),
            ds == dm_view(descs@),
            mid == head + usage_line(prog, ds) + "\n"@ + "options:\n"@,
            lines == ds.map_values(|e: (Seq<char>, Seq<char>, Type)| option_line(e)),
            out@ == mid + join_with(lines.take(i as int), "\n"@),
        decreases n - i,
    {
        let ghost before = out@;
        if i > 0 {
            out.append("\n");
        }
        out.append("  ");
        out.append(descs[i].0.as_str());
        let klen = descs[i].0.as_str().unicode_len();
        if klen >= 20 {
            append_spaces(&mut out, 20);
            out.append("  \n");
        } else {
            append_spaces(&mut out, 20 - klen);
        }
        out.append(" ");
        out.append(descs[i].1.as_str());
        proof {
            assert(lines[i as int] == option_line(ds[i as int]));
            let e = ds[i as int];
            assert(e.0 == descs@[i as int].0@);
            assert(("  "@ + e.0 + pad_block(e.0.len()) + " "@ + e.1) =~= option_line(e));
            if i > 0 {
                assert(out@ =~= before + "\n"@ + lines[i as int]);
                assert(lines.take(i + 1 as int).drop_last() =~= lines.take(i as int));
                assert(join_with(lines.take(i + 1 as int), "\n"@) == join_with(
                    lines.take(i as int),
                    "\n"@,
                ) + "\n"@ + lines[i as int]);
                assert(out@ =~= mid + join_with(lines.take(i + 1 as int), "\n"@));
            } else {
                assert(out@ =~= before + lines[i as int]);
                assert(join_with(lines.take(1), "\n"@) == lines[0]);
                assert(out@ =~= mid + join_with(lines.take(i + 1 as int), "\n"@));
            }
        }
        i = i + 1;
    }
    proof {
        assert(lines.take(n as int) =~= lines);
        assert(out@ =~= head + (usage_line(prog, ds) + "\n"@ + options_block(ds)));
    }
    out
}

} // verus!
