use vstd::prelude::*;
use vstd::string::StringExecFns;

use crate::sheet::{height, lemma_height_child, Cell, CellView, Sheet};

verus! {

/// Two spaces for each level of depth.
pub open spec fn indent(depth: nat) -> Seq<char>
    decreases depth,
{
    if depth == 0 {
        Seq::empty()
    } else {
        indent((depth - 1) as nat) + "  "@
    }
}

/// The line of one cell, then the lines of the cells under it, one level deeper.
pub open spec fn rendered_cell(c: CellView, depth: nat) -> Seq<char>
    decreases c, 0int,
{
    indent(depth) + "- "@ + c.text + "\n"@ + rendered_children(c.children, depth + 1, c.children.len() as int)
}

/// The lines of the first `n` of `cs`, at the given depth.
pub open spec fn rendered_children(cs: Seq<CellView>, depth: nat, n: int) -> Seq<char>
    decreases cs, n,
{
    if n <= 0 || n > cs.len() {
        Seq::empty()
    } else {
        rendered_children(cs, depth, n - 1) + rendered_cell(cs[n - 1], depth)
    }
}

/// A heading with the title, then one line per cell in pre-order.
pub open spec fn formatted_sheet(title: Seq<char>, root: CellView) -> Seq<char> {
    "# "@ + title + "\n"@ + rendered_cell(root, 0)
}

fn render_cell(cell: &Cell, depth: usize, buffer: &mut String)
    requires
        depth + height(cell@) <= usize::MAX + 1,
    ensures
        final(buffer)@ == old(buffer)@ + rendered_cell(cell@, depth as nat),
    decreases cell@,
{
    let mut k: usize = 0;
    while k < depth
        invariant
            k <= depth,
            buffer@ == old(buffer)@ + indent(k as nat),
        decreases depth - k,
    {
        buffer.append("  ");
        k = k + 1;
    }
    buffer.append("- ");
    buffer.append(cell.text.as_str());
    buffer.append("\n");
    let ghost line = indent(depth as nat) + "- "@ + cell@.text + "\n"@;
    assert(buffer@ =~= old(buffer)@ + line);
    let ghost n = cell.children@.len() as int;
    let mut i: usize = 0;
    while i < cell.children.len()
        invariant
            i <= n,
            n == cell.children@.len(),
            n == cell@.children.len(),
            depth + height(cell@) <= usize::MAX + 1,
            buffer@ == old(buffer)@ + line + rendered_children(cell@.children, (depth + 1) as nat, i as int),
        decreases n - i,
    {
        proof {
            lemma_height_child(cell@, i as int);
        }
        assert(cell@.children[i as int] == cell.children@[i as int]@);
        render_cell(&cell.children[i], depth + 1, buffer);
        assert(buffer@ =~= old(buffer)@ + line + rendered_children(cell@.children, (depth + 1) as nat, i + 1));
        i = i + 1;
    }
    assert(buffer@ =~= old(buffer)@ + rendered_cell(cell@, depth as nat));
}

/// The sheet as indented text: `# <title>`, then one line `- <text>` per cell
/// in pre-order, indented by two spaces per level of depth.
pub fn format_sheet(sheet: &Sheet) -> (r: String)
    requires
        height(sheet@.root) <= usize::MAX + 1,
    ensures
        r@ == formatted_sheet(sheet@.title, sheet@.root),
{
    let mut buffer = String::new();
    buffer.append("# ");
    buffer.append(sheet.title.as_str());
    buffer.append("\n");
    render_cell(&sheet.root, 0, &mut buffer);
    assert(buffer@ =~= formatted_sheet(sheet@.title, sheet@.root));
    buffer
}

} // verus!
