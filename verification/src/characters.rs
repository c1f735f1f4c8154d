//! A closed catalogue of named symbolic characters — box-drawing pipes,
//! joints, corner nodes, arrowheads and triangles — with a repetition
//! helper.

use vstd::prelude::*;

verus! {

/// A collection of named UTF-8 characters.
///
/// Each variant is bound to exactly one glyph, given by [`glyph`] and
/// rendered by [`Utf8::render`].
#[derive(Clone, Copy, PartialEq, Eq, Structural, Debug)]
pub enum Utf8 {
    /// Modifier letter left arrowhead (˂)
    ModLetterLeftArrowhead,
    /// Modifier letter right arrowhead (˃)
    ModLetterRightArrowhead,
    /// Modifier letter up arrowhead (˄)
    ModLetterUpArrowhead,
    /// Modifier letter down arrowhead (˅)
    ModLetterDownArrowhead,
    /// End of guard area (—)
    EndGuardArea,
    /// Horizontal pipe, slim variant (—)
    HPipeSlim,
    /// Vertical pipe, slim variant (│)
    VPipeSlim,
    /// Joint for slim horizontal and vertical pipes (├)
    JointPipeSlim,
    /// Node for slim pipes (└)
    NodePipeSlim,
    /// Curved node for slim pipes (╰)
    NodePipeCurved,
    /// Horizontal pipe, bold variant (━)
    HPipeBold,
    /// Vertical pipe, bold variant (┃)
    VPipeBold,
    /// Joint for bold horizontal and vertical pipes (┣)
    JointPipeBold,
    /// Node for bold pipes (┗)
    NodePipeBold,
    /// Horizontal double pipe (═)
    HPipeDouble,
    /// Vertical double pipe (║)
    VPipeDouble,
    /// Joint for double horizontal and vertical pipes (╠)
    JointPipeDouble,
    /// Node for double pipes (╚)
    NodePipeDouble,
    /// Canadian Aboriginal Syllabics letter E (ᐁ)
    CanadianSyllabicsE,
    /// Canadian Aboriginal Syllabics letter I (ᐃ)
    CanadianSyllabicsI,
    /// Canadian Aboriginal Syllabics letter O (ᐅ)
    CanadianSyllabicsO,
    /// Canadian Aboriginal Syllabics letter A (ᐊ)
    CanadianSyllabicsA,
    /// Triangle pointing downwards, represented by Canadian Syllabics E (ᐁ)
    TriangleDown,
    /// Triangle pointing upwards, represented by Canadian Syllabics I (ᐃ)
    TriangleUp,
    /// Triangle pointing to the right, represented by Canadian Syllabics O (ᐅ)
    TriangleRight,
    /// Triangle pointing to the left, represented by Canadian Syllabics A (ᐊ)
    TriangleLeft,
}

/// The glyph each variant is bound to.
pub open spec fn glyph(u: Utf8) -> char {
    match u {
        Utf8::ModLetterLeftArrowhead => '\u{02c2}',
        Utf8::ModLetterRightArrowhead => '\u{02c3}',
        Utf8::ModLetterUpArrowhead => '\u{02c4}',
        Utf8::ModLetterDownArrowhead => '\u{02c5}',
        Utf8::EndGuardArea => '\u{2014}',
        Utf8::HPipeSlim => '\u{2014}',
        Utf8::VPipeSlim => '\u{2502}',
        Utf8::JointPipeSlim => '\u{251c}',
        Utf8::NodePipeSlim => '\u{2514}',
        Utf8::NodePipeCurved => '\u{2570}',
        Utf8::HPipeBold => '\u{2501}',
        Utf8::VPipeBold => '\u{2503}',
        Utf8::JointPipeBold => '\u{2523}',
        Utf8::NodePipeBold => '\u{2517}',
        Utf8::HPipeDouble => '\u{2550}',
        Utf8::VPipeDouble => '\u{2551}',
        Utf8::JointPipeDouble => '\u{2560}',
        Utf8::NodePipeDouble => '\u{255a}',
        Utf8::CanadianSyllabicsE => '\u{1401}',
        Utf8::CanadianSyllabicsI => '\u{1403}',
        Utf8::CanadianSyllabicsO => '\u{1405}',
        Utf8::CanadianSyllabicsA => '\u{140a}',
        Utf8::TriangleDown => '\u{1401}',
        Utf8::TriangleUp => '\u{1403}',
        Utf8::TriangleRight => '\u{1405}',
        Utf8::TriangleLeft => '\u{140a}',
    }
}

impl Utf8 {
    /// The single-character string this variant renders as.
    pub fn render(&self) -> (s: &'static str)
        ensures
            s@ == seq![glyph(*self)],
    {
        let s = match *self {
            Utf8::ModLetterLeftArrowhead => "\u{02c2}",
            Utf8::ModLetterRightArrowhead => "\u{02c3}",
            Utf8::ModLetterUpArrowhead => "\u{02c4}",
            Utf8::ModLetterDownArrowhead => "\u{02c5}",
            Utf8::EndGuardArea => "\u{2014}",
            Utf8::HPipeSlim => "\u{2014}",
            Utf8::VPipeSlim => "\u{2502}",
            Utf8::JointPipeSlim => "\u{251c}",
            Utf8::NodePipeSlim => "\u{2514}",
            Utf8::NodePipeCurved => "\u{2570}",
            Utf8::HPipeBold => "\u{2501}",
            Utf8::VPipeBold => "\u{2503}",
            Utf8::JointPipeBold => "\u{2523}",
            Utf8::NodePipeBold => "\u{2517}",
            Utf8::HPipeDouble => "\u{2550}",
            Utf8::VPipeDouble => "\u{2551}",
            Utf8::JointPipeDouble => "\u{2560}",
            Utf8::NodePipeDouble => "\u{255a}",
            Utf8::CanadianSyllabicsE => "\u{1401}",
            Utf8::CanadianSyllabicsI => "\u{1403}",
            Utf8::CanadianSyllabicsO => "\u{1405}",
            Utf8::CanadianSyllabicsA => "\u{140a}",
            Utf8::TriangleDown => "\u{1401}",
            Utf8::TriangleUp => "\u{1403}",
            Utf8::TriangleRight => "\u{1405}",
            Utf8::TriangleLeft => "\u{140a}",
        };
        proof {
            reveal_strlit("\u{02c2}");
            reveal_strlit("\u{02c3}");
            reveal_strlit("\u{02c4}");
            reveal_strlit("\u{02c5}");
            reveal_strlit("\u{2014}");
            reveal_strlit("\u{2502}");
            reveal_strlit("\u{251c}");
            reveal_strlit("\u{2514}");
            reveal_strlit("\u{2570}");
            reveal_strlit("\u{2501}");
            reveal_strlit("\u{2503}");
            reveal_strlit("\u{2523}");
            reveal_strlit("\u{2517}");
            reveal_strlit("\u{2550}");
            reveal_strlit("\u{2551}");
            reveal_strlit("\u{2560}");
            reveal_strlit("\u{255a}");
            reveal_strlit("\u{1401}");
            reveal_strlit("\u{1403}");
            reveal_strlit("\u{1405}");
            reveal_strlit("\u{140a}");
            assert(s@ =~= seq![glyph(*self)]);
        }
        s
    }

    /// The glyph of this variant repeated `n` times; zero repetitions give
    /// the empty string.
    pub fn repeat(&self, n: usize) -> (s: String)
        ensures
            s@ == Seq::new(n as nat, |i: int| glyph(*self)),
    {
        let mut s = String::new();
        let mut i: usize = 0;
        while i < n
            invariant
                i <= n,
                s@ == Seq::new(i as nat, |j: int| glyph(*self)),
            decreases n - i,
        {
            s.append(self.render());
            proof {
                assert(s@ =~= Seq::new((i + 1) as nat, |j: int| glyph(*self)));
            }
            i += 1;
        }
        s
    }
}

} // verus!
