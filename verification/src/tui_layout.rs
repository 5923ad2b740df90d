//! The terminal interface's layout arithmetic: how tall the input box and
//! the delegation tree are, how much of the chat shows, where the chat is
//! scrolled to and which tree line stays selected. Drawing is the caller's
//! part.
use vstd::prelude::*;

verus! {

/// The sizes the screen is divided into.
#[derive(Debug, Clone, Copy, PartialEq, Eq, Structural)]
pub struct ChatLayout {
    /// Lines of the input box.
    pub input_lines: u16,
    /// Columns the chat text is wrapped to.
    pub chat_width: usize,
    /// Lines of the delegation tree (zero when it is not shown).
    pub tree_height: u16,
    pub show_tree: bool,
    /// Lines of chat that show.
    pub visible_height: usize,
}

pub open spec fn sat_sub(a: int, b: int) -> int {
    if a >= b {
        a - b
    } else {
        0
    }
}

pub open spec fn clamp(x: int, lo: int, hi: int) -> int {
    if x < lo {
        lo
    } else if x > hi {
        hi
    } else {
        x
    }
}

/// The input box grows with its text up to a third of the screen (at
/// least three lines); the chat is wrapped four columns inside the screen
/// (at least ten); the tree, when there is one, takes its lines plus four,
/// but between three and twelve lines and no more than a third of the
/// screen; the chat shows what is left below the borders, the status bar,
/// the tree with its separator and any popup, at least one line.
pub open spec fn layout_of(width: u16, height: u16, input_line_count: usize, tree_items: usize, popup_height: u16) -> ChatLayout {
    let max_input = if height / 3 >= 3 {
        height / 3
    } else {
        3
    };
    let input_lines = clamp(input_line_count as int, 1, max_input as int);
    let chat_width = if sat_sub(width as int, 4) >= 10 {
        sat_sub(width as int, 4)
    } else {
        10
    };
    let tree_height = if tree_items > 0 {
        let max_tree = clamp(height as int / 3, 3, 12);
        if 4 + tree_items <= max_tree {
            4 + tree_items
        } else {
            max_tree
        }
    } else {
        0
    };
    let show_tree = tree_height > 0;
    let rest = sat_sub(
        sat_sub(sat_sub(height as int, input_lines + 3), if show_tree { 1 + tree_height } else { 0 }),
        popup_height as int,
    );
    ChatLayout {
        input_lines: input_lines as u16,
        chat_width: chat_width as usize,
        tree_height: tree_height as u16,
        show_tree,
        visible_height: (if rest >= 1 {
            rest
        } else {
            1
        }) as usize,
    }
}

/// The layout of a `width` by `height` terminal whose input holds
/// `input_line_count` lines, with `tree_items` delegation lines and a popup
/// of `popup_height` lines.
pub fn chat_layout(width: u16, height: u16, input_line_count: usize, tree_items: usize, popup_height: u16) -> (l: ChatLayout)
    requires
        tree_items <= usize::MAX - 4,
    ensures
        l == layout_of(width, height, input_line_count, tree_items, popup_height),
{
    let third: u16 = height / 3;
    let max_input: u16 = if third >= 3 {
        third
    } else {
        3
    };
    let input_lines: u16 = if input_line_count < 1 {
        1
    } else if input_line_count > max_input as usize {
        max_input
    } else {
        input_line_count as u16
    };
    let narrowed: u16 = if width >= 4 {
        width - 4
    } else {
        0
    };
    let chat_width: usize = if narrowed >= 10 {
        narrowed as usize
    } else {
        10
    };
    let tree_height: u16 = if tree_items > 0 {
        let t: usize = height as usize / 3;
        let max_tree: usize = if t < 3 {
            3
        } else if t > 12 {
            12
        } else {
            t
        };
        if 4 + tree_items <= max_tree {
            (4 + tree_items) as u16
        } else {
            max_tree as u16
        }
    } else {
        0
    };
    let show_tree = tree_height > 0;
    let below_input: u16 = if height >= input_lines + 3 {
        height - (input_lines + 3)
    } else {
        0
    };
    let tree_take: u16 = if show_tree {
        1 + tree_height
    } else {
        0
    };
    let below_tree: u16 = if below_input >= tree_take {
        below_input - tree_take
    } else {
        0
    };
    let rest: u16 = if below_tree >= popup_height {
        below_tree - popup_height
    } else {
        0
    };
    let visible_height: usize = if rest >= 1 {
        rest as usize
    } else {
        1
    };
    ChatLayout { input_lines, chat_width, tree_height, show_tree, visible_height }
}

/// Where the chat is scrolled to, and whether it follows new text: a chat
/// that follows, or that was scrolled to the bottom (which makes it follow
/// again), shows the end; otherwise the scroll stays, kept within range.
pub open spec fn scrolled(auto_scroll: bool, chat_scroll: usize, max_scroll: usize) -> (usize, bool) {
    let reached_bottom = !auto_scroll && chat_scroll >= max_scroll;
    (
        if auto_scroll || reached_bottom {
            max_scroll
        } else if chat_scroll <= max_scroll {
            chat_scroll
        } else {
            max_scroll
        },
        auto_scroll || reached_bottom,
    )
}

pub fn settle_scroll(auto_scroll: bool, chat_scroll: usize, max_scroll: usize) -> (r: (usize, bool))
    ensures
        r == scrolled(auto_scroll, chat_scroll, max_scroll),
{
    let reached_bottom = !auto_scroll && chat_scroll >= max_scroll;
    let scroll = if auto_scroll || reached_bottom {
        max_scroll
    } else if chat_scroll <= max_scroll {
        chat_scroll
    } else {
        max_scroll
    };
    (scroll, auto_scroll || reached_bottom)
}

/// The selected tree line stays on a line that exists (the first when there
/// are none).
pub fn clamp_selection(selected: usize, items: usize) -> (s: usize)
    ensures
        s == if items == 0 {
            0
        } else if selected < items {
            selected
        } else {
            (items - 1) as usize
        },
{
    let last: usize = if items >= 1 {
        items - 1
    } else {
        0
    };
    if selected <= last {
        selected
    } else {
        last
    }
}

/// The chat never shows fewer than one line, and the input box never
/// takes more than a third of the screen when the screen has nine lines or
/// more.
pub proof fn lemma_layout_bounds(width: u16, height: u16, input_line_count: usize, tree_items: usize, popup_height: u16)
    ensures
        layout_of(width, height, input_line_count, tree_items, popup_height).visible_height >= 1,
        layout_of(width, height, input_line_count, tree_items, popup_height).input_lines >= 1,
        height >= 9 ==> layout_of(width, height, input_line_count, tree_items, popup_height).input_lines <= height / 3,
        layout_of(width, height, input_line_count, tree_items, popup_height).tree_height <= 12,
        layout_of(width, height, input_line_count, tree_items, popup_height).show_tree <==> tree_items > 0,
{
}

} // verus!
