//! The flame graph as JSON text: compact, fields in a fixed order, strings
//! escaped as JSON asks.

use crate::flamegraph::{
    lemma_node_views_index, lemma_node_views_len, node_views, DataView, FlameGraphData,
    FlameGraphNode, NodeView,
};
use crate::text::{decimal, push_decimal};
use vstd::prelude::*;
use vstd::string::{StrSliceExecFns, StringExecFns};

verus! {

/// The character that stands for the hexadecimal digit `d`, in lower case.
pub open spec fn hex_char(d: nat) -> char
    recommends
        d < 16,
{
    if d == 0 {
        '0'
    } else if d == 1 {
        '1'
    } else if d == 2 {
        '2'
    } else if d == 3 {
        '3'
    } else if d == 4 {
        '4'
    } else if d == 5 {
        '5'
    } else if d == 6 {
        '6'
    } else if d == 7 {
        '7'
    } else if d == 8 {
        '8'
    } else if d == 9 {
        '9'
    } else if d == 10 {
        'a'
    } else if d == 11 {
        'b'
    } else if d == 12 {
        'c'
    } else if d == 13 {
        'd'
    } else if d == 14 {
        'e'
    } else {
        'f'
    }
}

/// How a character stands inside a JSON string: the quote and the backslash
/// behind a backslash, control characters by their short escape or as
/// `\u00` and two hexadecimal digits, any other as itself.
pub open spec fn escape_char(c: char) -> Seq<char> {
    if c == '"' {
        seq!['\\', '"']
    } else if c == '\\' {
        seq!['\\', '\\']
    } else if c == '\u{8}' {
        seq!['\\', 'b']
    } else if c == '\u{c}' {
        seq!['\\', 'f']
    } else if c == '\n' {
        seq!['\\', 'n']
    } else if c == '\r' {
        seq!['\\', 'r']
    } else if c == '\t' {
        seq!['\\', 't']
    } else if (c as u32) < 0x20 {
        seq!['\\', 'u', '0', '0', hex_char((c as u32 / 16) as nat), hex_char((c as u32 % 16) as nat)]
    } else {
        seq![c]
    }
}

/// A text with every character escaped.
pub open spec fn escape(s: Seq<char>) -> Seq<char>
    decreases s.len(),
{
    if s.len() == 0 {
        Seq::empty()
    } else {
        escape(s.drop_last()) + escape_char(s.last())
    }
}

/// A text as a JSON string.
pub open spec fn quoted(s: Seq<char>) -> Seq<char> {
    seq!['"'] + escape(s) + seq!['"']
}

/// A node as a JSON object.
pub open spec fn node_json(node: NodeView) -> Seq<char>
    decreases node, 0nat,
{
    "{\"id\":"@ + quoted(node.id) + ",\"name\":"@ + quoted(node.name) + ",\"value\":"@ + decimal(
        node.value,
    ) + ",\"children\":["@ + nodes_json(node.children) + "]}"@
}

/// Nodes as the elements of a JSON array, with commas between them.
pub open spec fn nodes_json(nodes: Seq<NodeView>) -> Seq<char>
    decreases nodes, 1nat,
{
    if nodes.len() == 0 {
        Seq::empty()
    } else if nodes.len() == 1 {
        node_json(nodes[0])
    } else {
        nodes_json(nodes.drop_last()) + ","@ + node_json(nodes.last())
    }
}

/// A flame graph as a JSON object.
pub open spec fn data_json(data: DataView) -> Seq<char> {
    "{\"name\":"@ + quoted(data.name) + ",\"value\":"@ + decimal(data.value) + ",\"children\":["@
        + nodes_json(data.children) + "]}"@
}

fn hex_str(d: u32) -> (s: &'static str)
    requires
        d < 16,
    ensures
        s@ == seq![hex_char(d as nat)],
{
    proof {
        reveal_strlit("0");
        reveal_strlit("1");
        reveal_strlit("2");
        reveal_strlit("3");
        reveal_strlit("4");
        reveal_strlit("5");
        reveal_strlit("6");
        reveal_strlit("7");
        reveal_strlit("8");
        reveal_strlit("9");
        reveal_strlit("a");
        reveal_strlit("b");
        reveal_strlit("c");
        reveal_strlit("d");
        reveal_strlit("e");
        reveal_strlit("f");
    }
    let s = if d == 0 {
        "0"
    } else if d == 1 {
        "1"
    } else if d == 2 {
        "2"
    } else if d == 3 {
        "3"
    } else if d == 4 {
        "4"
    } else if d == 5 {
        "5"
    } else if d == 6 {
        "6"
    } else if d == 7 {
        "7"
    } else if d == 8 {
        "8"
    } else if d == 9 {
        "9"
    } else if d == 10 {
        "a"
    } else if d == 11 {
        "b"
    } else if d == 12 {
        "c"
    } else if d == 13 {
        "d"
    } else if d == 14 {
        "e"
    } else {
        "f"
    };
    assert(s@ =~= seq![hex_char(d as nat)]);
    s
}

/// Appends the character at `i` of `s`, escaped.
fn push_escaped_char(out: &mut String, s: &str, i: usize)
    requires
        i < s@.len() <= usize::MAX,
    ensures
        final(out)@ == old(out)@ + escape_char(s@[i as int]),
{
    let c = s.get_char(i);
    if c == '"' {
        proof {
            reveal_strlit("\\\"");
            assert("\\\""@ =~= seq!['\\', '"']);
        }
        out.append("\\\"");
    } else if c == '\\' {
        proof {
            reveal_strlit("\\\\");
            assert("\\\\"@ =~= seq!['\\', '\\']);
        }
        out.append("\\\\");
    } else if c == '\u{8}' {
        proof {
            reveal_strlit("\\b");
            assert("\\b"@ =~= seq!['\\', 'b']);
        }
        out.append("\\b");
    } else if c == '\u{c}' {
        proof {
            reveal_strlit("\\f");
            assert("\\f"@ =~= seq!['\\', 'f']);
        }
        out.append("\\f");
    } else if c == '\n' {
        proof {
            reveal_strlit("\\n");
            assert("\\n"@ =~= seq!['\\', 'n']);
        }
        out.append("\\n");
    } else if c == '\r' {
        proof {
            reveal_strlit("\\r");
            assert("\\r"@ =~= seq!['\\', 'r']);
        }
        out.append("\\r");
    } else if c == '\t' {
        proof {
            reveal_strlit("\\t");
            assert("\\t"@ =~= seq!['\\', 't']);
        }
        out.append("\\t");
    } else if (c as u32) < 0x20 {
        let ghost before = out@;
        proof {
            reveal_strlit("\\u00");
            assert("\\u00"@ =~= seq!['\\', 'u', '0', '0']);
        }
        out.append("\\u00");
        out.append(hex_str(c as u32 / 16));
        out.append(hex_str(c as u32 % 16));
        assert(out@ =~= before + escape_char(c));
    } else {
        let ghost before = out@;
        out.append(s.substring_char(i, i + 1));
        assert(s@.subrange(i as int, i + 1) =~= seq![c]);
        assert(out@ =~= before + escape_char(c));
    }
}

/// Appends `s` as a JSON string.
pub fn push_quoted(out: &mut String, s: &str)
    ensures
        final(out)@ == old(out)@ + quoted(s@),
{
    let ghost before = out@;
    proof {
        reveal_strlit("\"");
        assert("\""@ =~= seq!['"']);
    }
    out.append("\"");
    let n = s.unicode_len();
    let mut i: usize = 0;
    proof {
        assert(s@.take(0) =~= Seq::empty());
        assert(out@ =~= before + seq!['"'] + escape(s@.take(0)));
    }
    while i < n
        invariant
            i <= n,
            n == s@.len(),
            out@ == before + seq!['"'] + escape(s@.take(i as int)),
        decreases n - i,
    {
        let ghost here = out@;
        push_escaped_char(out, s, i);
        proof {
            assert(s@.take(i + 1).drop_last() =~= s@.take(i as int));
            assert(s@.take(i + 1).last() == s@[i as int]);
            assert(out@ =~= before + seq!['"'] + escape(s@.take(i + 1)));
        }
        i += 1;
    }
    proof {
        assert(s@.take(i as int) =~= s@);
    }
    out.append("\"");
    proof {
        assert(out@ =~= before + quoted(s@));
    }
}

/// Appends a node as a JSON object.
pub fn push_node(out: &mut String, node: &FlameGraphNode)
    ensures
        final(out)@ == old(out)@ + node_json(node@),
    decreases node, 0nat,
{
    let ghost before = out@;
    out.append("{\"id\":");
    push_quoted(out, node.id.as_str());
    out.append(",\"name\":");
    push_quoted(out, node.name.as_str());
    out.append(",\"value\":");
    push_decimal(out, node.value);
    out.append(",\"children\":[");
    push_nodes(out, &node.children);
    out.append("]}");
    proof {
        assert(out@ =~= before + node_json(node@));
    }
}

/// Appends nodes as the elements of a JSON array.
pub fn push_nodes(out: &mut String, nodes: &Vec<FlameGraphNode>)
    ensures
        final(out)@ == old(out)@ + nodes_json(node_views(nodes@)),
    decreases nodes, 1nat,
{
    let ghost before = out@;
    let ghost views = node_views(nodes@);
    let mut i: usize = 0;
    proof {
        lemma_node_views_len(nodes@);
        assert(views.take(0) =~= Seq::empty());
        assert(out@ =~= before + nodes_json(views.take(0)));
    }
    while i < nodes.len()
        invariant
            i <= nodes.len(),
            views == node_views(nodes@),
            views.len() == nodes.len(),
            out@ == before + nodes_json(views.take(i as int)),
        decreases nodes.len() - i,
    {
        let ghost here = out@;
        if i > 0 {
            out.append(",");
        }
        push_node(out, &nodes[i]);
        proof {
            lemma_node_views_index(nodes@, i as int);
            let longer = views.take(i + 1);
            assert(longer.drop_last() =~= views.take(i as int));
            assert(longer.last() == nodes@[i as int]@);
            if i == 0 {
                assert(longer[0] == nodes@[0]@);
                assert(out@ =~= before + nodes_json(longer));
            } else {
                assert(out@ =~= before + nodes_json(longer));
            }
        }
        i += 1;
    }
    proof {
        assert(views.take(i as int) =~= views);
    }
}

impl FlameGraphData {
    /// The flame graph as JSON text.
    pub fn to_json(&self) -> (text: String)
        ensures
            text@ == data_json(self@),
    {
        let mut out = String::new();
        out.append("{\"name\":");
        push_quoted(&mut out, self.name.as_str());
        out.append(",\"value\":");
        push_decimal(&mut out, self.value);
        out.append(",\"children\":[");
        push_nodes(&mut out, &self.children);
        out.append("]}");
        proof {
            assert(out@ =~= data_json(self@));
        }
        out
    }
}

} // verus!
