//! The text that tells a device its configuration of a deployment: one line per module it
//! fetches (`module <name> <url>`), then one line per function it calls on another device
//! (`connection <function> (<input types>) -> (<output types>)`), types separated by commas.
use vstd::prelude::*;
use crate::model::{entries_view, ConfigurationView, DeviceConfiguration, FunctionView, WebAssemblyFunction, WebAssemblyType};

verus! {

pub open spec fn value_type_text(t: WebAssemblyType) -> Seq<char> {
    match t {
        WebAssemblyType::U32 => seq!['u', '3', '2'],
        WebAssemblyType::U64 => seq!['u', '6', '4'],
        WebAssemblyType::F32 => seq!['f', '3', '2'],
        WebAssemblyType::F64 => seq!['f', '6', '4'],
    }
}

/// The names of `ts`, separated by commas.
pub open spec fn types_text(ts: Seq<WebAssemblyType>) -> Seq<char>
    decreases ts.len(),
{
    if ts.len() == 0 {
        seq![]
    } else if ts.len() == 1 {
        value_type_text(ts[0])
    } else {
        types_text(ts.drop_last()) + seq![','] + value_type_text(ts.last())
    }
}

pub open spec fn module_line(module: Seq<char>, url: Seq<char>) -> Seq<char> {
    seq!['m', 'o', 'd', 'u', 'l', 'e', ' '] + module + seq![' '] + url + seq!['\n']
}

pub open spec fn connection_line(function: Seq<char>, signature: FunctionView) -> Seq<char> {
    seq!['c', 'o', 'n', 'n', 'e', 'c', 't', 'i', 'o', 'n', ' '] + function + seq![' ', '(']
        + types_text(signature.input) + seq![')', ' ', '-', '>', ' ', '('] + types_text(signature.output)
        + seq![')', '\n']
}

pub open spec fn module_lines(ms: Seq<(Seq<char>, Seq<char>)>) -> Seq<char>
    decreases ms.len(),
{
    if ms.len() == 0 {
        seq![]
    } else {
        module_lines(ms.drop_last()) + module_line(ms.last().0, ms.last().1)
    }
}

pub open spec fn connection_lines(cs: Seq<(Seq<char>, FunctionView)>) -> Seq<char>
    decreases cs.len(),
{
    if cs.len() == 0 {
        seq![]
    } else {
        connection_lines(cs.drop_last()) + connection_line(cs.last().0, cs.last().1)
    }
}

/// The text of a device's configuration.
pub open spec fn configuration_text_of(c: ConfigurationView) -> Seq<char> {
    module_lines(c.modules) + connection_lines(c.connections)
}

fn type_str(t: WebAssemblyType) -> (r: &'static str)
    ensures
        r@ == value_type_text(t),
{
    proof {
        reveal_strlit("u32");
        reveal_strlit("u64");
        reveal_strlit("f32");
        reveal_strlit("f64");
    }
    let r = match t {
        WebAssemblyType::U32 => "u32",
        WebAssemblyType::U64 => "u64",
        WebAssemblyType::F32 => "f32",
        WebAssemblyType::F64 => "f64",
    };
    assert(r@ =~= value_type_text(t));
    r
}

fn types_string(ts: &Vec<WebAssemblyType>) -> (r: String)
    ensures
        r@ == types_text(ts@),
{
    proof {
        reveal_strlit("");
    }
    let mut r = String::from_str("");
    let mut i: usize = 0;
    assert(r@ =~= types_text(ts@.take(0)));
    while i < ts.len()
        invariant
            i <= ts.len(),
            r@ == types_text(ts@.take(i as int)),
        decreases ts.len() - i,
    {
        assert(ts@.take(i + 1).drop_last() =~= ts@.take(i as int));
        assert(ts@.take(i + 1).last() == ts@[i as int]);
        let ghost before = r@;
        if i > 0 {
            let comma = ",";
            proof {
                reveal_strlit(",");
            }
            assert(comma@ =~= seq![',']);
            r = r.concat(comma);
        }
        let t = type_str(ts[i]);
        r = r.concat(t);
        proof {
            if i == 0 {
                assert(ts@.take(1)[0] == ts@[0]);
                assert(r@ =~= types_text(ts@.take(1)));
            } else {
                assert(r@ =~= before + seq![','] + value_type_text(ts@[i as int]));
            }
        }
        i = i + 1;
    }
    assert(ts@.take(i as int) =~= ts@);
    r
}

/// The text that tells a device its configuration.
pub fn configuration_text(c: &DeviceConfiguration) -> (r: String)
    ensures
        r@ == configuration_text_of(c@),
{
    proof {
        reveal_strlit("");
    }
    let ghost mv = entries_view(c.modules@);
    let ghost cv = entries_view(c.connections@);
    let mut r = String::from_str("");
    let mut i: usize = 0;
    assert(r@ =~= module_lines(mv.take(0)));
    while i < c.modules.len()
        invariant
            i <= c.modules.len(),
            mv == entries_view(c.modules@),
            r@ == module_lines(mv.take(i as int)),
        decreases c.modules.len() - i,
    {
        assert(mv.take(i + 1).drop_last() =~= mv.take(i as int));
        assert(mv.take(i + 1).last() == (c.modules@[i as int].0@, c.modules@[i as int].1@));
        let ghost before = r@;
        let l1 = "module ";
        proof {
            reveal_strlit("module ");
        }
        let l2 = " ";
        proof {
            reveal_strlit(" ");
        }
        let l3 = "\n";
        proof {
            reveal_strlit("\n");
        }
        assert(l1@ =~= seq!['m', 'o', 'd', 'u', 'l', 'e', ' ']);
        assert(l2@ =~= seq![' ']);
        assert(l3@ =~= seq!['\n']);
        r = r.concat(l1);
        r = r.concat(c.modules[i].0.as_str());
        r = r.concat(l2);
        r = r.concat(c.modules[i].1.as_str());
        r = r.concat(l3);
        assert(r@ =~= before + module_line(c.modules@[i as int].0@, c.modules@[i as int].1@));
        i = i + 1;
        assert(r@ =~= module_lines(mv.take(i as int)));
    }
    assert(mv.take(i as int) =~= mv);
    let ghost prefix = r@;
    let mut j: usize = 0;
    assert(r@ =~= prefix + connection_lines(cv.take(0)));
    while j < c.connections.len()
        invariant
            j <= c.connections.len(),
            cv == entries_view(c.connections@),
            r@ == prefix + connection_lines(cv.take(j as int)),
        decreases c.connections.len() - j,
    {
        assert(cv.take(j + 1).drop_last() =~= cv.take(j as int));
        assert(cv.take(j + 1).last() == (c.connections@[j as int].0@, c.connections@[j as int].1@));
        let f: &WebAssemblyFunction = &c.connections[j].1;
        let input = types_string(&f.input);
        let output = types_string(&f.output);
        let ghost before = r@;
        let l1 = "connection ";
        proof {
            reveal_strlit("connection ");
        }
        let l2 = " (";
        proof {
            reveal_strlit(" (");
        }
        let l3 = ") -> (";
        proof {
            reveal_strlit(") -> (");
        }
        let l4 = ")\n";
        proof {
            reveal_strlit(")\n");
        }
        assert(l1@ =~= seq!['c', 'o', 'n', 'n', 'e', 'c', 't', 'i', 'o', 'n', ' ']);
        assert(l2@ =~= seq![' ', '(']);
        assert(l3@ =~= seq![')', ' ', '-', '>', ' ', '(']);
        assert(l4@ =~= seq![')', '\n']);
        r = r.concat(l1);
        r = r.concat(c.connections[j].0.as_str());
        r = r.concat(l2);
        r = r.concat(input.as_str());
        r = r.concat(l3);
        r = r.concat(output.as_str());
        r = r.concat(l4);
        assert(r@ =~= before + connection_line(c.connections@[j as int].0@, c.connections@[j as int].1@));
        j = j + 1;
        assert(r@ =~= prefix + connection_lines(cv.take(j as int)));
    }
    assert(cv.take(j as int) =~= cv);
    r
}

} // verus!
