use vstd::prelude::*;
use vstd::string::StringExecFns;

verus! {

/// What stands before the element at `index` of a JSON array: the opening
/// bracket before the first, a comma before any other.
pub open spec fn lead_text(index: int) -> Seq<char> {
    if index == 0 {
        "["@
    } else {
        ","@
    }
}

/// What ends a JSON array of `count` elements: the closing bracket, with
/// the opening one before it where no element has opened the array.
pub open spec fn close_text(count: int) -> Seq<char> {
    if count == 0 {
        "[]"@
    } else {
        "]"@
    }
}

/// The text of a JSON array once `elements` are written and before it is
/// closed: each element behind its lead.
pub open spec fn open_array_text(elements: Seq<Seq<char>>) -> Seq<char>
    decreases elements.len(),
{
    if elements.len() == 0 {
        Seq::empty()
    } else {
        open_array_text(elements.drop_last()) + lead_text(elements.len() - 1) + elements.last()
    }
}

/// The text of the JSON array of `elements`: no comma follows the last.
pub open spec fn array_text(elements: Seq<Seq<char>>) -> Seq<char> {
    open_array_text(elements) + close_text(elements.len() as int)
}

/// What to write before the element at `index` of a JSON array.
pub fn lead(index: usize) -> (text: &'static str)
    ensures
        text@ == lead_text(index as int),
{
    if index == 0 {
        "["
    } else {
        ","
    }
}

/// What to write after the last of `count` elements of a JSON array.
pub fn close(count: usize) -> (text: &'static str)
    ensures
        text@ == close_text(count as int),
{
    if count == 0 {
        "[]"
    } else {
        "]"
    }
}

/// The JSON array of `elements`, each of them the text of a JSON value.
pub fn frame(elements: &Vec<String>) -> (text: String)
    ensures
        text@ == array_text(elements@.map_values(|element: String| element@)),
{
    let ghost texts = elements@.map_values(|element: String| element@);
    let mut text = String::new();
    let mut i: usize = 0;
    while i < elements.len()
        invariant
            i <= elements@.len(),
            texts == elements@.map_values(|element: String| element@),
            text@ == open_array_text(texts.take(i as int)),
        decreases elements@.len() - i,
    {
        proof {
            assert(texts.take(i + 1).drop_last() =~= texts.take(i as int));
        }
        text.append(lead(i));
        text.append(elements[i].as_str());
        i = i + 1;
    }
    proof {
        assert(texts.take(i as int) =~= texts);
    }
    text.append(close(i));
    text
}

} // verus!
