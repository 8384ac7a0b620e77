//! The control-flow graph of a MIR body in the DOT language: one record
//! node per block, listing its statements and terminator, and one edge per
//! jump.
use vstd::prelude::*;
use vstd::string::*;
use crate::mangle::{decimal, push_decimal, push_decimal_wide};
use super::basic_block::{MIRBasicBlock, MIRTerminator};
use super::display::{fmt_stmt, fmt_terminator, stmt_text, terminator_text, MIRNames};
use super::Mir;

verus! {

/// A graph name with `-`, `:` and spaces made `_`.
pub open spec fn dot_escape(s: Seq<char>) -> Seq<char> {
    s.map_values(|c: char| if c == '-' || c == ':' || c == ' ' { '_' } else { c })
}

/// The characters a record label must escape.
pub open spec fn label_special(c: char) -> bool {
    c == '\\' || c == '"' || c == '{' || c == '}' || c == '<' || c == '>' || c == '|'
}

/// A text made fit for a record label: a backslash before each special
/// character.
pub open spec fn dot_escape_label(s: Seq<char>) -> Seq<char>
    decreases s.len(),
{
    if s.len() == 0 {
        seq![]
    } else {
        dot_escape_label(s.drop_last()) + if label_special(s.last()) {
            seq!['\\', s.last()]
        } else {
            seq![s.last()]
        }
    }
}

/// The lines of the statements of a label, each escaped and ended by `\l`.
pub open spec fn label_stmts(n: MIRNames, b: MIRBasicBlock, k: nat) -> Seq<char>
    decreases k,
{
    if k == 0 {
        seq![]
    } else {
        label_stmts(n, b, (k - 1) as nat) + dot_escape_label(stmt_text(n, b.stmts@[k - 1])) + "\\l"@
    }
}

/// The record label of block `idx`: its number and name, then its
/// statements, then `---` and its terminator, all between quotes and braces.
pub open spec fn block_label(n: MIRNames, idx: nat, b: MIRBasicBlock) -> Seq<char> {
    "\""@ + "{bb"@ + decimal(idx) + match b.name {
        Some(name) => " ("@ + name@ + ")"@,
        None => seq![],
    } + "|"@ + label_stmts(n, b, b.stmts@.len()) + "---\\l"@ + dot_escape_label(
        terminator_text(n, b.terminator),
    ) + "\\l"@ + "}\""@
}

/// An edge from block `from` to block `to`, labelled when `label` is some.
pub open spec fn edge_text(from: nat, to: nat, label: Option<Seq<char>>) -> Seq<char> {
    "  bb"@ + decimal(from) + " -> bb"@ + decimal(to) + match label {
        Some(l) => " [label=\""@ + l + "\"]"@,
        None => seq![],
    } + "\n"@
}

/// The edges of the arms of a switch, each labelled by its value.
pub open spec fn switch_edges(from: nat, bs: Seq<(u128, super::BlockID)>) -> Seq<char>
    decreases bs.len(),
{
    if bs.len() == 0 {
        seq![]
    } else {
        switch_edges(from, bs.drop_last()) + edge_text(from, bs.last().1.0 as nat, Some(decimal(bs.last().0 as nat)))
    }
}

/// The edges out of a block: none for a return or a divergence, `true` and
/// `false` for a branch, one per arm and `_` for a switch, and one plain
/// edge for a jump or a call.
pub open spec fn edges_text(from: nat, t: MIRTerminator) -> Seq<char> {
    match t {
        MIRTerminator::Diverge => seq![],
        MIRTerminator::Return { .. } => seq![],
        MIRTerminator::Branch { then, else_, .. } => edge_text(from, then.0 as nat, Some("true"@)) + edge_text(
            from,
            else_.0 as nat,
            Some("false"@),
        ),
        MIRTerminator::Switch { branches, default, .. } => switch_edges(from, branches@) + edge_text(
            from,
            default.0 as nat,
            Some("_"@),
        ),
        MIRTerminator::Goto { next } => edge_text(from, next.0 as nat, None),
        MIRTerminator::Call { next, .. } => edge_text(from, next.0 as nat, None),
    }
}

/// The node of block `idx`, filled when it is the entry, then its edges.
pub open spec fn node_text(n: MIRNames, idx: nat, b: MIRBasicBlock, entry: nat) -> Seq<char> {
    "  bb"@ + decimal(idx) + " [label="@ + block_label(n, idx, b) + if idx == entry {
        " style=filled fillcolor=lightblue]\n"@
    } else {
        "]\n"@
    } + edges_text(idx, b.terminator)
}

/// The nodes of the first `k` blocks.
pub open spec fn nodes_text(n: MIRNames, m: Mir, k: nat) -> Seq<char>
    decreases k,
{
    if k == 0 {
        seq![]
    } else {
        nodes_text(n, m, (k - 1) as nat) + node_text(n, (k - 1) as nat, m.blocks@[k - 1], m.entry.0 as nat)
    }
}

/// The DOT text of a body: the graph header, every block's node and edges,
/// and the closing brace.
pub open spec fn dot_text(n: MIRNames, m: Mir, name: Seq<char>) -> Seq<char> {
    "digraph "@ + dot_escape(name) + " {\n"@ + "  node [shape=record fontname=\"Courier New\" fontsize=10]\n"@
        + "  edge [fontname=\"Courier New\" fontsize=9]\n\n"@ + nodes_text(n, m, m.blocks@.len()) + "}"@
}

/// Writes a graph name with `-`, `:` and spaces made `_`.
pub fn push_dot_escape(w: &mut String, s: &str)
    ensures
        final(w)@ == old(w)@ + dot_escape(s@),
{
    let ghost start = w@;
    let len = s.unicode_len();
    let mut i: usize = 0;
    while i < len
        invariant
            len == s@.len(),
            i <= len,
            w@ == start + dot_escape(s@.take(i as int)),
        decreases len - i,
    {
        let c = s.get_char(i);
        let ghost before = w@;
        let ghost mapped = if c == '-' || c == ':' || c == ' ' { '_' } else { c };
        if c == '-' || c == ':' || c == ' ' {
            w.append("_");
            proof {
                reveal_strlit("_");
            }
            assert("_"@ =~= seq!['_']);
        } else {
            w.append(s.substring_char(i, i + 1));
            assert(s@.subrange(i as int, i + 1) =~= seq![c]);
        }
        proof {
            assert(w@ =~= before.push(mapped));
            assert(dot_escape(s@.take(i + 1)) =~= dot_escape(s@.take(i as int)).push(mapped));
        }
        i += 1;
    }
    assert(s@.take(len as int) =~= s@);
}

/// Writes a text made fit for a record label.
pub fn push_dot_escape_label(w: &mut String, s: &str)
    ensures
        final(w)@ == old(w)@ + dot_escape_label(s@),
{
    let ghost start = w@;
    let len = s.unicode_len();
    let mut i: usize = 0;
    while i < len
        invariant
            len == s@.len(),
            i <= len,
            w@ == start + dot_escape_label(s@.take(i as int)),
        decreases len - i,
    {
        let c = s.get_char(i);
        let ghost before = w@;
        if c == '\\' || c == '"' || c == '{' || c == '}' || c == '<' || c == '>' || c == '|' {
            w.append("\\");
            proof {
                reveal_strlit("\\");
            }
            assert("\\"@ =~= seq!['\\']);
        }
        let ghost mid = w@;
        w.append(s.substring_char(i, i + 1));
        proof {
            let t = s@.take(i + 1);
            assert(s@.subrange(i as int, i + 1) =~= seq![c]);
            if label_special(c) {
                assert(w@ =~= before + seq!['\\', c]);
            } else {
                assert(w@ =~= before + seq![c]);
            }
            assert(t.drop_last() =~= s@.take(i as int));
            assert(t.last() == c);
            assert(w@ =~= start + dot_escape_label(t));
        }
        i += 1;
    }
    assert(s@.take(len as int) =~= s@);
}

/// Writes the record label of block `idx`.
fn push_block_label(w: &mut String, names: &MIRNames, idx: usize, block: &MIRBasicBlock)
    requires
        block.terminator.wf(),
    ensures
        final(w)@ == old(w)@ + block_label(*names, idx as nat, *block),
{
    let ghost start = w@;
    w.append("\"");
    w.append("{bb");
    push_decimal(w, idx);
    match &block.name {
        Some(name) => {
            w.append(" (");
            w.append(name.as_str());
            w.append(")");
        },
        None => {},
    }
    w.append("|");
    let ghost s1 = w@;
    let mut k: usize = 0;
    while k < block.stmts.len()
        invariant
            k <= block.stmts@.len(),
            w@ == s1 + label_stmts(*names, *block, k as nat),
        decreases block.stmts@.len() - k,
    {
        let mut text = String::new();
        fmt_stmt(&mut text, names, &block.stmts[k]);
        push_dot_escape_label(w, text.as_str());
        w.append("\\l");
        assert(w@ =~= s1 + label_stmts(*names, *block, (k + 1) as nat));
        k += 1;
    }
    let mut text = String::new();
    fmt_terminator(&mut text, names, &block.terminator);
    w.append("---\\l");
    push_dot_escape_label(w, text.as_str());
    w.append("\\l");
    w.append("}\"");
    assert(w@ =~= start + block_label(*names, idx as nat, *block));
}

/// Writes an edge from block `from` to block `to`, with the label if any.
fn push_edge(w: &mut String, from: usize, to: usize, label: Option<&str>)
    ensures
        final(w)@ == old(w)@ + edge_text(
            from as nat,
            to as nat,
            match label {
                Some(l) => Some(l@),
                None => None,
            },
        ),
{
    let ghost start = w@;
    w.append("  bb");
    push_decimal(w, from);
    w.append(" -> bb");
    push_decimal(w, to);
    match label {
        Some(l) => {
            w.append(" [label=\"");
            w.append(l);
            w.append("\"]");
        },
        None => {},
    }
    w.append("\n");
    assert(w@ =~= start + edge_text(
        from as nat,
        to as nat,
        match label {
            Some(l) => Some(l@),
            None => None,
        },
    ));
}

/// Writes the edges out of block `from`.
fn push_edges(w: &mut String, from: usize, terminator: &MIRTerminator)
    ensures
        final(w)@ == old(w)@ + edges_text(from as nat, *terminator),
{
    let ghost start = w@;
    match terminator {
        MIRTerminator::Diverge | MIRTerminator::Return { .. } => {},
        MIRTerminator::Branch { then, else_, .. } => {
            push_edge(w, from, then.0, Some("true"));
            push_edge(w, from, else_.0, Some("false"));
        },
        MIRTerminator::Switch { branches, default, .. } => {
            let mut k: usize = 0;
            while k < branches.len()
                invariant
                    k <= branches@.len(),
                    w@ == start + switch_edges(from as nat, branches@.take(k as int)),
                decreases branches@.len() - k,
            {
                let (value, block) = branches[k];
                let ghost before = w@;
                w.append("  bb");
                push_decimal(w, from);
                w.append(" -> bb");
                push_decimal(w, block.0);
                w.append(" [label=\"");
                push_decimal_wide(w, value);
                w.append("\"]");
                w.append("\n");
                proof {
                    let t = branches@.take(k + 1);
                    assert(t.drop_last() =~= branches@.take(k as int));
                    assert(t.last() == branches@[k as int]);
                    assert(w@ =~= before + edge_text(from as nat, block.0 as nat, Some(decimal(value as nat))));
                    assert(w@ =~= start + switch_edges(from as nat, t));
                }
                k += 1;
            }
            assert(branches@.take(branches@.len() as int) =~= branches@);
            push_edge(w, from, default.0, Some("_"));
        },
        MIRTerminator::Goto { next } => {
            push_edge(w, from, next.0, None);
        },
        MIRTerminator::Call { next, .. } => {
            push_edge(w, from, next.0, None);
        },
    }
    assert(w@ =~= start + edges_text(from as nat, *terminator));
}

/// Writes the node of block `idx` and its edges.
fn push_node(w: &mut String, names: &MIRNames, idx: usize, block: &MIRBasicBlock, entry: usize)
    requires
        block.terminator.wf(),
    ensures
        final(w)@ == old(w)@ + node_text(*names, idx as nat, *block, entry as nat),
{
    let ghost start = w@;
    w.append("  bb");
    push_decimal(w, idx);
    w.append(" [label=");
    push_block_label(w, names, idx, block);
    if idx == entry {
        w.append(" style=filled fillcolor=lightblue]\n");
    } else {
        w.append("]\n");
    }
    push_edges(w, idx, &block.terminator);
    assert(w@ =~= start + node_text(*names, idx as nat, *block, entry as nat));
}

impl Mir {
    /// The body's control-flow graph in the DOT language, as a graph named
    /// after `name`.
    pub fn dot(&self, names: &MIRNames, name: &str) -> (r: String)
        requires
            self.switches_sorted(),
        ensures
            r@ == dot_text(*names, *self, name@),
    {
        let mut w = String::new();
        w.append("digraph ");
        push_dot_escape(&mut w, name);
        w.append(" {\n");
        w.append("  node [shape=record fontname=\"Courier New\" fontsize=10]\n");
        w.append("  edge [fontname=\"Courier New\" fontsize=9]\n\n");
        let ghost s1 = w@;
        let entry = self.entry.0;
        let mut idx: usize = 0;
        while idx < self.blocks.len()
            invariant
                idx <= self.blocks@.len(),
                entry == self.entry.0,
                w@ == s1 + nodes_text(*names, *self, idx as nat),
                self.switches_sorted(),
            decreases self.blocks@.len() - idx,
        {
            assert(self.blocks@[idx as int].terminator.wf()) by {
                reveal(Mir::switches_sorted);
            }
            push_node(&mut w, names, idx, &self.blocks[idx], entry);
            assert(w@ =~= s1 + nodes_text(*names, *self, (idx + 1) as nat));
            idx += 1;
        }
        w.append("}");
        assert(w@ =~= dot_text(*names, *self, name@));
        w
    }
}

} // verus!
