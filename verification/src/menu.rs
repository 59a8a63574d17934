//! The decisions of the interactive menu: which action a choice selects,
//! which file a name entered by the user means, how a palette grows as the
//! user enters its anchors, and how the grid is filled from the smoothed
//! counts of its samples.

use crate::fractal::{cells_of, settled_grid, settled_row, Fractal};
use crate::palette::{ordered, Anchor, Colour};
use vstd::prelude::*;
use vstd::string::{group_string_axioms, StrSliceExecFns, StringExecFns};

verus! {

broadcast use group_string_axioms;

/// An action of the menu.
#[derive(Clone, Copy, Debug, PartialEq, Eq, Structural)]
pub enum MenuChoice {
    /// Enter the settings of a new fractal.
    EnterFractal,
    /// Load the settings of a fractal from a file.
    LoadSettings,
    /// Compute the escape counts of the grid.
    CalDivergence,
    /// Define the colour palette.
    DefColPalete,
    /// Render the image.
    RenderImage,
    /// Save the settings and results to a file.
    SaveSettings,
    /// Print the state of the session.
    PrintClass,
    /// Leave the program.
    Quit,
    /// The choice names no action.
    Invalid,
}

/// The action that a choice selects. A choice is one lower-case letter;
/// everything else selects nothing.
pub open spec fn choice_of(text: Seq<char>) -> MenuChoice {
    if text.len() != 1 {
        MenuChoice::Invalid
    } else if text[0] == 'a' {
        MenuChoice::EnterFractal
    } else if text[0] == 'b' {
        MenuChoice::LoadSettings
    } else if text[0] == 'c' {
        MenuChoice::CalDivergence
    } else if text[0] == 'd' {
        MenuChoice::DefColPalete
    } else if text[0] == 'e' {
        MenuChoice::RenderImage
    } else if text[0] == 'f' {
        MenuChoice::SaveSettings
    } else if text[0] == 'g' {
        MenuChoice::PrintClass
    } else if text[0] == 'q' {
        MenuChoice::Quit
    } else {
        MenuChoice::Invalid
    }
}

/// Reads a menu choice, given without surrounding blanks and in lower case.
pub fn menu_choice(choice: &str) -> (action: MenuChoice)
    ensures
        action == choice_of(choice@),
{
    if choice.unicode_len() != 1 {
        return MenuChoice::Invalid;
    }
    let letter: char = choice.get_char(0);
    if letter == 'a' {
        MenuChoice::EnterFractal
    } else if letter == 'b' {
        MenuChoice::LoadSettings
    } else if letter == 'c' {
        MenuChoice::CalDivergence
    } else if letter == 'd' {
        MenuChoice::DefColPalete
    } else if letter == 'e' {
        MenuChoice::RenderImage
    } else if letter == 'f' {
        MenuChoice::SaveSettings
    } else if letter == 'g' {
        MenuChoice::PrintClass
    } else if letter == 'q' {
        MenuChoice::Quit
    } else {
        MenuChoice::Invalid
    }
}

/// The ending that a file name without a dot gets.
pub open spec fn toml_ending() -> Seq<char> {
    seq!['.', 't', 'o', 'm', 'l']
}

/// The file that an entered name means: the default where nothing was
/// entered, the name itself where it holds a dot, and the name with the
/// ending `.toml` otherwise.
pub open spec fn resolved_file_name(entered: Seq<char>, default_name: Seq<char>) -> Seq<char> {
    if entered.len() == 0 {
        default_name
    } else if entered.contains('.') {
        entered
    } else {
        entered + toml_ending()
    }
}

/// A file in a folder: the folder, a slash, the file's name.
pub open spec fn joined_path(folder: Seq<char>, file_name: Seq<char>) -> Seq<char> {
    folder + seq!['/'] + file_name
}

/// Says whether a text holds a dot.
fn has_dot(text: &str) -> (found: bool)
    ensures
        found == text@.contains('.'),
{
    let mut found: bool = false;
    for c in it: text.chars()
        invariant
            it.seq() == text@,
            found == text@.take(it.index() as int).contains('.'),
    {
        if c == '.' {
            found = true;
        }
        proof {
            let i = it.index() as int;
            let before = text@.take(i);
            let upto = text@.take(i + 1);
            assert(upto[i] == c);
            if before.contains('.') {
                let j = choose|j: int| 0 <= j < before.len() && before[j] == '.';
                assert(upto[j] == '.');
            }
            if upto.contains('.') && c != '.' {
                let j = choose|j: int| 0 <= j < upto.len() && upto[j] == '.';
                assert(before[j] == '.');
            }
        }
    }
    assert(text@.take(text@.len() as int) =~= text@);
    found
}

/// Resolves the file name that the user entered, given without surrounding
/// blanks, against the default name.
pub fn config_file_name(entered: &str, default_name: &str) -> (name: String)
    ensures
        name@ == resolved_file_name(entered@, default_name@),
{
    if entered.unicode_len() == 0 {
        String::from_str(default_name)
    } else if has_dot(entered) {
        String::from_str(entered)
    } else {
        proof {
            reveal_strlit(".toml");
            assert(".toml"@ =~= toml_ending());
        }
        String::from_str(entered).concat(".toml")
    }
}

/// The path of a file in a folder.
pub fn file_path(folder: &str, file_name: &str) -> (path: String)
    ensures
        path@ == joined_path(folder@, file_name@),
{
    proof {
        reveal_strlit("/");
        assert("/"@ =~= seq!['/']);
    }
    String::from_str(folder).concat("/").concat(file_name)
}

/// The boundary that is stored for an entered one: the entered boundary, cut
/// to the iteration limit.
pub open spec fn stored_boundary(entered: u32, max_its: u32) -> u32 {
    if entered > max_its {
        max_its
    } else {
        entered
    }
}

/// A palette under definition refuses a boundary that does not lie above its
/// last one.
pub open spec fn boundary_refused(palete: Seq<Anchor>, boundary: u32) -> bool {
    palete.len() > 0 && boundary <= palete.last().0
}

/// A palette under definition after a boundary has been entered with its
/// colour: the palette as it was where the stored boundary is refused, and
/// with the new anchor at its end otherwise.
pub open spec fn palete_after(palete: Seq<Anchor>, entered: u32, color: Colour, max_its: u32)
    -> Seq<Anchor> {
    if boundary_refused(palete, stored_boundary(entered, max_its)) {
        palete
    } else {
        palete.push((stored_boundary(entered, max_its), color))
    }
}

/// Adds an anchor at the end of the palette, whatever its boundary.
///
/// An ordered palette stays ordered where the new boundary lies above its
/// last one.
pub fn add_colour_to_palete(fractals: &mut Fractal, its_bound: u32, color: Colour)
    ensures
        final(fractals)@ == old(fractals)@.with_anchor((its_bound, color)),
        ordered(old(fractals)@.col_palete) && !boundary_refused(
            old(fractals)@.col_palete,
            its_bound,
        ) ==> ordered(final(fractals)@.col_palete),
{
    fractals.col_palete.push((its_bound, color));
}

/// Begins the definition of a palette: the palette becomes the one anchor
/// with the colour at the first boundary, which is one. Says whether a
/// further anchor is wanted: it is while the last boundary lies below the
/// iteration limit.
pub fn def_col_palete_first(fractals: &mut Fractal, color: Colour) -> (more: bool)
    ensures
        final(fractals)@ == old(fractals)@.with_palete(seq![(1u32, color)]),
        ordered(final(fractals)@.col_palete),
        more == (1 < old(fractals).max_its),
{
    let mut palete: Vec<Anchor> = Vec::new();
    palete.push((1, color));
    fractals.col_palete = palete;
    assert(fractals@.col_palete =~= seq![(1u32, color)]);
    1 < fractals.max_its
}

/// Takes the next anchor of a palette under definition.
///
/// A boundary above the iteration limit is stored as the limit. A boundary
/// that does not lie above the last one of the palette is refused: the
/// palette stays as it is, and an anchor is still wanted. Otherwise the
/// anchor is added at the end, and a further one is wanted while its boundary
/// lies below the limit. So the boundaries of an ordered palette keep
/// increasing, and the definition ends with a boundary at the limit.
pub fn def_col_palete_next(fractals: &mut Fractal, its_bound: u32, color: Colour) -> (more: bool)
    ensures
        final(fractals)@ == old(fractals)@.with_palete(
            palete_after(old(fractals)@.col_palete, its_bound, color, old(fractals).max_its),
        ),
        more == (boundary_refused(
            old(fractals)@.col_palete,
            stored_boundary(its_bound, old(fractals).max_its),
        ) || stored_boundary(its_bound, old(fractals).max_its) < old(fractals).max_its),
        ordered(old(fractals)@.col_palete) ==> ordered(final(fractals)@.col_palete),
        !more ==> final(fractals)@.col_palete.len() > 0 && final(fractals)@.col_palete.last().0
            == old(fractals).max_its,
{
    let stored: u32 = if its_bound > fractals.max_its {
        fractals.max_its
    } else {
        its_bound
    };
    let held: usize = fractals.col_palete.len();
    if held > 0 && stored <= fractals.col_palete[held - 1].0 {
        return true;
    }
    add_colour_to_palete(fractals, stored, color);
    stored < fractals.max_its
}

/// Computes the grid of escape counts from the smoothed counts of all its
/// samples.
///
/// `smoothed` holds, row by row from the top and in each row from the left,
/// the whole part of the smoothed count of each sample's orbit. Each is
/// settled under the session's limit and stored in its cell, so that with a
/// limit of at least one every cell holds a count from one to the limit.
pub fn cal_divergence(fractals: &mut Fractal, smoothed: &Vec<Vec<u32>>)
    requires
        old(fractals)@.wf(),
        smoothed@.len() == old(fractals).rows,
        forall|r: int| 0 <= r < smoothed@.len() ==> #[trigger] smoothed@[r]@.len() == old(
            fractals,
        ).cols,
    ensures
        final(fractals)@ == old(fractals)@.with_grid(
            settled_grid(cells_of(smoothed@), old(fractals).max_its),
        ),
        final(fractals)@.wf(),
        old(fractals).max_its >= 1 ==> final(fractals)@.counted(),
{
    let rows: u32 = fractals.rows;
    let ghost before = fractals@;
    let mut row: u32 = 0;
    while row < rows
        invariant
            row <= rows,
            rows == before.rows,
            before.wf(),
            smoothed@.len() == rows,
            forall|r: int| 0 <= r < smoothed@.len() ==> #[trigger] smoothed@[r]@.len()
                == before.cols,
            fractals@.wf(),
            fractals@ == before.with_grid(fractals@.escape_its),
            forall|r: int|
                0 <= r < row ==> #[trigger] fractals@.escape_its[r] == settled_row(
                    smoothed@[r]@,
                    before.max_its,
                ),
        decreases rows - row,
    {
        fractals.cal_row_divergence(row, &smoothed[row as usize]);
        row += 1;
    }
    proof {
        let wanted = settled_grid(cells_of(smoothed@), before.max_its);
        assert(fractals@.escape_its =~= wanted);
        if before.max_its >= 1 {
            assert forall|r: int| 0 <= r < fractals@.escape_its.len() implies #[trigger] fractals@.row_counted(
                r,
            ) by {
                assert(fractals@.escape_its[r] == settled_row(smoothed@[r]@, before.max_its));
            }
        }
    }
}

} // verus!
