//! The scripted aura: the rows a script's `items` function returns.
use vstd::prelude::*;

verus! {

/// The text pairs of the rows a script returned: the icon text (first
/// column) and the line text (second column) of each row, in order.
pub fn lua_item_texts(rows: &Vec<Vec<String>>) -> (r: Vec<(String, String)>)
    requires
        forall|i: int| 0 <= i < rows@.len() ==> #[trigger] rows@[i]@.len() >= 2,
    ensures
        r@.len() == rows@.len(),
        forall|i: int|
            0 <= i < rows@.len() ==> #[trigger] r@[i].0@ == rows@[i]@[0]@ && r@[i].1@
                == rows@[i]@[1]@,
{
    let mut out: Vec<(String, String)> = Vec::new();
    let mut i: usize = 0;
    while i < rows.len()
        invariant
            i <= rows@.len(),
            out@.len() == i,
            forall|k: int| 0 <= k < rows@.len() ==> #[trigger] rows@[k]@.len() >= 2,
            forall|k: int|
                0 <= k < i ==> #[trigger] out@[k].0@ == rows@[k]@[0]@ && out@[k].1@
                    == rows@[k]@[1]@,
        decreases rows@.len() - i,
    {
        let row = &rows[i];
        let icon_text = row[0].clone();
        let text = row[1].clone();
        out.push((icon_text, text));
        i = i + 1;
    }
    out
}

} // verus!
