//! Painted surfaces, and which changes of a property show on them.

use crate::gallery::{Scene, SceneVariant};
use crate::names::Names;
use crate::text::{glue, same, views};
use vstd::prelude::*;

verus! {

/// A painted surface: its pixels row by row, four bytes each, and its size.
#[derive(Debug)]
pub struct Painted {
    pub rgba: Vec<u8>,
    pub width: usize,
    pub height: usize,
}

/// Are these two pixels the same?
pub open spec fn same_pixel(a: Seq<u8>, b: Seq<u8>, i: int) -> bool {
    a[4 * i] == b[4 * i] && a[4 * i + 1] == b[4 * i + 1] && a[4 * i + 2] == b[4 * i + 2] && a[4 * i
        + 3] == b[4 * i + 3]
}

/// How many of the first so many pixels differ.
pub open spec fn differing(a: Seq<u8>, b: Seq<u8>, count: nat) -> nat
    decreases count,
{
    if count == 0 {
        0
    } else if same_pixel(a, b, count - 1) {
        differing(a, b, (count - 1) as nat)
    } else {
        differing(a, b, (count - 1) as nat) + 1
    }
}

/// How many pixels two surfaces share.
pub open spec fn shared(a: Seq<u8>, b: Seq<u8>) -> nat {
    if a.len() <= b.len() {
        a.len() / 4
    } else {
        b.len() / 4
    }
}

/// How many pixels differ between two paints: all of them, where the sizes differ.
pub fn pixels_differing(a: &Painted, b: &Painted) -> (r: usize)
    requires
        a.width * a.height <= usize::MAX,
    ensures
        r == (if a.width != b.width || a.height != b.height {
            (a.width * a.height) as nat
        } else {
            differing(a.rgba@, b.rgba@, shared(a.rgba@, b.rgba@))
        }),
{
    if a.width != b.width || a.height != b.height {
        return a.width * a.height;
    }
    let n: usize = if a.rgba.len() <= b.rgba.len() {
        a.rgba.len() / 4
    } else {
        b.rgba.len() / 4
    };
    let mut r: usize = 0;
    let mut i: usize = 0;
    while i < n
        invariant
            i <= n,
            4 * n <= a.rgba.len(),
            4 * n <= b.rgba.len(),
            r <= i,
            r == differing(a.rgba@, b.rgba@, i as nat),
        decreases n - i,
    {
        let k: usize = 4 * i;
        if !(a.rgba[k] == b.rgba[k] && a.rgba[k + 1] == b.rgba[k + 1] && a.rgba[k + 2] == b.rgba[k
            + 2] && a.rgba[k + 3] == b.rgba[k + 3]) {
            r += 1;
        }
        i += 1;
    }
    r
}

/// Pixels in the order blue, green, red, with blue and red changed over.
pub open spec fn swapped(bgra: Seq<u8>, pixels: nat) -> Seq<u8> {
    Seq::new(
        4 * pixels,
        |i: int|
            if i % 4 == 0 {
                bgra[i + 2]
            } else if i % 4 == 2 {
                bgra[i - 2]
            } else {
                bgra[i]
            },
    )
}

/// The surface that a painter's pixels make.
pub fn rgba_of(bgra: &Vec<u8>, width: usize, height: usize) -> (r: Painted)
    requires
        4 * (width * height) <= bgra.len(),
    ensures
        r.rgba@ == swapped(bgra@, (width * height) as nat),
        r.width == width,
        r.height == height,
{
    assert(width * height >= 0) by (nonlinear_arith)
        requires
            width >= 0,
            height >= 0,
    ;
    let room: usize = bgra.len();
    assert(width * height <= usize::MAX);
    let n: usize = width * height;
    let mut rgba: Vec<u8> = Vec::new();
    let mut i: usize = 0;
    while i < n
        invariant
            i <= n,
            4 * n <= bgra.len(),
            rgba@ == swapped(bgra@, i as nat),
        decreases n - i,
    {
        let k: usize = 4 * i;
        rgba.push(bgra[k + 2]);
        rgba.push(bgra[k + 1]);
        rgba.push(bgra[k]);
        rgba.push(bgra[k + 3]);
        i += 1;
        assert(rgba@ =~= swapped(bgra@, i as nat));
    }
    Painted { rgba, width, height }
}

// ---- what cannot show ----

/// The properties that cannot move a pixel on their own, each with the reason.
pub open spec fn excuses() -> Seq<(Seq<char>, Seq<char>)> {
    seq![
        (
            "Name"@,
            "an instance's identity. Two names render identically by design, and a          gallery that made them differ would be drawing the name."@,
        ),
        (
            "Parent"@,
            "reparenting moves an instance in the tree rather than changing how it          paints in place. The pixels move because the LAYOUT moved, which is a          different property's demonstration."@,
        ),
        (
            "Active"@,
            "input routing. It decides whether a GuiObject swallows a click and has          no paint of its own."@,
        ),
        (
            "InputSink"@,
            "input routing, as above. Nothing about it reaches the display list."@,
        ),
    ]
}

/// The properties that cannot move a pixel on their own, each with the reason.
pub fn cannot_differ() -> (r: Vec<(&'static str, &'static str)>)
    ensures
        r@.len() == excuses().len(),
        forall|i: int|
            0 <= i < r@.len() ==> (#[trigger] r@[i]).0@ == excuses()[i].0 && r@[i].1@
                == excuses()[i].1,
{
    let mut r: Vec<(&'static str, &'static str)> = Vec::new();
    r.push(
        (
            "Name",
            "an instance's identity. Two names render identically by design, and a          gallery that made them differ would be drawing the name.",
        ),
    );
    r.push(
        (
            "Parent",
            "reparenting moves an instance in the tree rather than changing how it          paints in place. The pixels move because the LAYOUT moved, which is a          different property's demonstration.",
        ),
    );
    r.push(
        (
            "Active",
            "input routing. It decides whether a GuiObject swallows a click and has          no paint of its own.",
        ),
    );
    r.push(
        ("InputSink", "input routing, as above. Nothing about it reaches the display list."),
    );
    r
}

/// Is a property excused?
pub open spec fn is_excused(property: Seq<char>) -> bool {
    exists|i: int| 0 <= i < excuses().len() && (#[trigger] excuses()[i]).0 == property
}

/// Why a property is excused from showing, where it is.
pub fn excused(property: &str) -> (r: Option<&'static str>)
    ensures
        match r {
            Some(reason) => exists|i: int|
                0 <= i < excuses().len() && #[trigger] excuses()[i] == (property@, reason@),
            None => !is_excused(property@),
        },
        r is Some == is_excused(property@),
{
    let list = cannot_differ();
    let mut i: usize = 0;
    while i < list.len()
        invariant
            i <= list.len(),
            list@.len() == excuses().len(),
            forall|j: int|
                0 <= j < list@.len() ==> (#[trigger] list@[j]).0@ == excuses()[j].0 && list@[j].1@
                    == excuses()[j].1,
            forall|j: int| 0 <= j < i ==> (#[trigger] excuses()[j]).0 != property@,
        decreases list.len() - i,
    {
        if same(list[i].0, property) {
            assert(excuses()[i as int] == (property@, list@[i as int].1@));
            return Some(list[i].1);
        }
        i += 1;
    }
    None
}

// ---- what shows ----

/// The first change of a property of a node, of those that a scene offers.
pub open spec fn variant_at(
    variants: Seq<SceneVariant>,
    node: Seq<char>,
    property: Seq<char>,
    from: nat,
) -> Option<int>
    decreases variants.len() - from,
{
    if from >= variants.len() {
        None
    } else if variants[from as int].node@ == node && variants[from as int].property@ == property {
        Some(from as int)
    } else {
        variant_at(variants, node, property, from + 1)
    }
}

/// Find the change again in a scene that was read once more.
pub fn find_variant(scene: &Scene, node: &str, property: &str) -> (r: Result<usize, String>)
    ensures
        match r {
            Ok(i) => variant_at(scene.variants@, node@, property@, 0) == Some(i as int),
            Err(e) => variant_at(scene.variants@, node@, property@, 0) is None && e@
                == scene.file_stem@ + ": variant vanished on reload"@,
        },
{
    let mut i: usize = 0;
    while i < scene.variants.len()
        invariant
            i <= scene.variants.len(),
            variant_at(scene.variants@, node@, property@, 0) == variant_at(
                scene.variants@,
                node@,
                property@,
                i as nat,
            ),
        decreases scene.variants.len() - i,
    {
        if same(scene.variants[i].property.as_str(), property) && same(
            scene.variants[i].node.as_str(),
            node,
        ) {
            return Ok(i);
        }
        i += 1;
    }
    Err(glue(scene.file_stem.clone(), ": variant vanished on reload"))
}

/// What is said of a change that shows nowhere.
pub open spec fn inert_message(
    pillar: Seq<char>,
    stem: Seq<char>,
    property: Seq<char>,
    node: Seq<char>,
) -> Seq<char> {
    pillar + "/"@ + stem + ": "@ + property + " on "@ + node + " changed no pixels"@
}

/// The properties whose change showed, and what is said of the changes that did not.
#[derive(Debug)]
pub struct Findings {
    pub moved: Names,
    pub inert: Vec<String>,
}

impl Findings {
    pub fn new() -> (r: Findings)
        ensures
            r.moved@ == Set::<Seq<char>>::empty(),
            r.inert@ == Seq::<String>::empty(),
    {
        Findings { moved: Names::new(), inert: Vec::new() }
    }

    /// Hold a paint with a change against the paint without it.
    pub fn compare(&mut self, scene: &Scene, variant: &SceneVariant, base: &Painted, changed: &Painted)
        requires
            base.width * base.height <= usize::MAX,
        ensures
            ({
                let shows = if base.width != changed.width || base.height != changed.height {
                    base.width * base.height > 0
                } else {
                    differing(base.rgba@, changed.rgba@, shared(base.rgba@, changed.rgba@)) > 0
                };
                &&& shows ==> final(self).moved@ == old(self).moved@.insert(variant.property@)
                    && final(self).inert@ == old(self).inert@
                &&& !shows ==> final(self).moved@ == old(self).moved@ && views(final(self).inert@)
                    == views(old(self).inert@).push(
                    inert_message(
                        scene.pillar@,
                        scene.file_stem@,
                        variant.property@,
                        variant.node@,
                    ),
                )
            }),
    {
        if pixels_differing(base, changed) > 0 {
            self.moved.put(variant.property.as_str());
        } else {
            let ghost before = views(self.inert@);
            let message = glue(
                glue(
                    glue(
                        glue(
                            glue(
                                glue(
                                    glue(scene.pillar.clone(), "/"),
                                    scene.file_stem.as_str(),
                                ),
                                ": ",
                            ),
                            variant.property.as_str(),
                        ),
                        " on ",
                    ),
                    variant.node.as_str(),
                ),
                " changed no pixels",
            );
            let ghost m = message@;
            self.inert.push(message);
            assert(views(self.inert@) =~= before.push(m));
        }
    }
}

// ---- laws ----

/// A paint differs from itself nowhere.
pub proof fn identical_paints_are_alike(a: Seq<u8>, count: nat)
    ensures
        differing(a, a, count) == 0,
    decreases count,
{
    if count > 0 {
        identical_paints_are_alike(a, (count - 1) as nat);
    }
}

/// Two paints differ somewhere exactly if some pixel differs.
pub proof fn a_difference_is_somewhere(a: Seq<u8>, b: Seq<u8>, count: nat)
    ensures
        differing(a, b, count) > 0 <==> exists|i: int| 0 <= i < count && !same_pixel(a, b, i),
        differing(a, b, count) <= count,
    decreases count,
{
    if count > 0 {
        a_difference_is_somewhere(a, b, (count - 1) as nat);
        if !same_pixel(a, b, count - 1) {
            assert(exists|i: int| 0 <= i < count && !same_pixel(a, b, i));
        }
    }
}

/// Changing blue and red over twice changes nothing.
pub proof fn changing_over_twice_changes_nothing(bgra: Seq<u8>, pixels: nat)
    requires
        bgra.len() == 4 * pixels,
    ensures
        swapped(swapped(bgra, pixels), pixels) == bgra,
{
    assert(swapped(swapped(bgra, pixels), pixels) =~= bgra);
}

} // verus!
