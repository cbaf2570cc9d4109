//! Scenes that show what properties do, and what they cover.

use crate::names::{Names, Pairs};
use crate::text::{glue, listed, same, views};
use vstd::prelude::*;
use vstd::string::*;

verus! {

broadcast use vstd::string::group_string_axioms;

// ---- scenes as they are read ----

/// A node of a tree as it is read: each field with what came of reading it. `props` holds the
/// names that are set, and `children` what is under it.
#[derive(Debug)]
pub struct RawNode {
    pub class: Result<Option<String>, String>,
    pub name: Result<Option<String>, String>,
    pub props: Option<Vec<Result<String, String>>>,
    pub children: Option<Vec<Result<RawNode, String>>>,
}

/// A change that a scene offers, as it is read. A value is known by a number.
#[derive(Debug)]
pub struct RawVariant {
    pub node: Result<Option<String>, String>,
    pub prop: Result<Option<String>, String>,
    pub value: Result<Option<u64>, String>,
}

/// The size of a surface as it is read, in singles.
#[derive(Clone, Copy, Debug, PartialEq, Eq, Structural)]
pub struct RawSurface {
    pub width: Option<u32>,
    pub height: Option<u32>,
}

/// A scene as it is read: the fields that it has, and what came of reading those that matter.
#[derive(Debug)]
pub struct RawScene {
    pub fields: Vec<String>,
    pub name: Result<Option<String>, String>,
    pub shows: Result<Option<String>, String>,
    pub surface: Option<RawSurface>,
    pub tree: Result<Option<RawNode>, String>,
    pub variants: Option<Vec<Result<RawVariant, String>>>,
}

/// The size of a surface, in singles.
#[derive(Clone, Copy, Debug, PartialEq, Eq, Structural)]
pub struct SurfaceSize {
    pub width: u32,
    pub height: u32,
}

/// One property changed on one named node, to see whether it moves any pixels.
#[derive(Debug)]
pub struct SceneVariant {
    pub node: String,
    pub property: String,
    pub value: u64,
}

pub struct SceneVariantView {
    pub node: Seq<char>,
    pub property: Seq<char>,
    pub value: u64,
}

impl View for SceneVariant {
    type V = SceneVariantView;

    open spec fn view(&self) -> SceneVariantView {
        SceneVariantView { node: self.node@, property: self.property@, value: self.value }
    }
}

/// One scene: what it is called and shows, the surface it is drawn on, and what it demonstrates.
#[derive(Debug)]
pub struct Scene {
    pub file_stem: String,
    /// The directory that the scene came from.
    pub pillar: String,
    pub name: String,
    /// One sentence: what a reader should look for in the image.
    pub shows: String,
    pub surface: SurfaceSize,
    /// The names of the properties that are set anywhere in the tree.
    pub demonstrates: Names,
    /// Which class each property was set on.
    pub demonstrates_by_class: Pairs,
    pub classes: Names,
    pub variants: Vec<SceneVariant>,
}

// ---- what a tree sets ----

/// What was found in a tree.
pub struct FoundView {
    pub props: Set<Seq<char>>,
    pub pairs: Set<(Seq<char>, Seq<char>)>,
    pub classes: Set<Seq<char>>,
}

impl FoundView {
    /// Nothing found yet.
    pub open spec fn none() -> FoundView {
        FoundView { props: Set::empty(), pairs: Set::empty(), classes: Set::empty() }
    }

    /// A property that is set on a class.
    pub open spec fn with(self, class: Seq<char>, prop: Seq<char>) -> FoundView {
        FoundView {
            props: self.props.insert(prop),
            pairs: self.pairs.insert((class, prop)),
            classes: self.classes,
        }
    }

    pub open spec fn with_class(self, class: Seq<char>) -> FoundView {
        FoundView { classes: self.classes.insert(class), ..self }
    }
}

/// What the first so many names that are set on a class add.
pub open spec fn props_found(
    names: Seq<Result<String, String>>,
    count: nat,
    class: Seq<char>,
    f: FoundView,
) -> Result<FoundView, Seq<char>>
    decreases count,
{
    if count == 0 {
        Ok(f)
    } else {
        match props_found(names, (count - 1) as nat, class, f) {
            Err(e) => Err(e),
            Ok(so_far) => match names[count - 1] {
                Err(e) => Err(e@),
                Ok(name) => Ok(so_far.with(class, name@)),
            },
        }
    }
}

/// What a tree sets. A name is set where a node has one, and a parent on everything that is under
/// another node, though neither stands among the properties.
pub open spec fn walked(node: RawNode, f: FoundView) -> Result<FoundView, Seq<char>>
    decreases node, 0nat,
{
    match node.class {
        Err(e) => Err(e@),
        Ok(None) => Err("a node has no class"@),
        Ok(Some(class)) => match node.name {
            Err(e) => Err(e@),
            Ok(name) => {
                let seen = f.with_class(class@);
                let named = if name is Some {
                    seen.with(class@, "Name"@)
                } else {
                    seen
                };
                let set = match node.props {
                    Some(names) => props_found(names@, names@.len(), class@, named),
                    None => Ok(named),
                };
                match (set, node.children) {
                    (Err(e), _) => Err(e),
                    (Ok(g), None) => Ok(g),
                    (Ok(g), Some(kids)) => walked_over(kids@, kids@.len(), g),
                }
            },
        },
    }
}

/// What the first so many nodes under another one set.
pub open spec fn walked_over(
    kids: Seq<Result<RawNode, String>>,
    count: nat,
    f: FoundView,
) -> Result<FoundView, Seq<char>>
    decreases kids, count,
{
    if count == 0 || count > kids.len() {
        Ok(f)
    } else {
        match walked_over(kids, (count - 1) as nat, f) {
            Err(e) => Err(e),
            Ok(so_far) => match kids[count - 1] {
                Err(e) => Err(e@),
                Ok(kid) => {
                    let placed = match kid.class {
                        Ok(Some(class)) => so_far.with(class@, "Parent"@),
                        _ => so_far,
                    };
                    walked(kid, placed)
                },
            },
        }
    }
}

struct Found {
    props: Names,
    pairs: Pairs,
    classes: Names,
}

impl View for Found {
    type V = FoundView;

    closed spec fn view(&self) -> FoundView {
        FoundView { props: self.props@, pairs: self.pairs@, classes: self.classes@ }
    }
}

impl Found {
    fn note(&mut self, class: &str, prop: &str)
        ensures
            final(self)@ == old(self)@.with(class@, prop@),
    {
        self.props.put(prop);
        self.pairs.put(class, prop);
    }
}

fn note_props(names: &Vec<Result<String, String>>, class: &str, found: &mut Found) -> (r: Result<
    (),
    String,
>)
    ensures
        match r {
            Ok(_) => props_found(names@, names@.len(), class@, old(found)@) == Ok::<
                FoundView,
                Seq<char>,
            >(final(found)@),
            Err(e) => props_found(names@, names@.len(), class@, old(found)@) == Err::<
                FoundView,
                Seq<char>,
            >(e@),
        },
{
    let ghost f = found@;
    let mut i: usize = 0;
    while i < names.len()
        invariant
            i <= names.len(),
            f == old(found)@,
            props_found(names@, i as nat, class@, f) == Ok::<FoundView, Seq<char>>(found@),
        decreases names.len() - i,
    {
        match &names[i] {
            Err(e) => {
                proof {
                    props_fail(names@, (i + 1) as nat, names@.len(), class@, f, e@);
                }
                return Err(e.clone());
            },
            Ok(name) => {
                found.note(class, name.as_str());
            },
        }
        i += 1;
    }
    Ok(())
}

/// A failure is what the rest comes to.
proof fn props_fail(
    names: Seq<Result<String, String>>,
    at: nat,
    count: nat,
    class: Seq<char>,
    f: FoundView,
    e: Seq<char>,
)
    requires
        at <= count,
        props_found(names, at, class, f) == Err::<FoundView, Seq<char>>(e),
    ensures
        props_found(names, count, class, f) == Err::<FoundView, Seq<char>>(e),
    decreases count,
{
    if at < count {
        props_fail(names, at, (count - 1) as nat, class, f, e);
    }
}

proof fn walk_fails(
    kids: Seq<Result<RawNode, String>>,
    at: nat,
    count: nat,
    f: FoundView,
    e: Seq<char>,
)
    requires
        0 < at <= count <= kids.len(),
        walked_over(kids, at, f) == Err::<FoundView, Seq<char>>(e),
    ensures
        walked_over(kids, count, f) == Err::<FoundView, Seq<char>>(e),
    decreases count,
{
    if at < count {
        walk_fails(kids, at, (count - 1) as nat, f, e);
    }
}

fn walk(node: &RawNode, found: &mut Found) -> (r: Result<(), String>)
    ensures
        match r {
            Ok(_) => walked(*node, old(found)@) == Ok::<FoundView, Seq<char>>(final(found)@),
            Err(e) => walked(*node, old(found)@) == Err::<FoundView, Seq<char>>(e@),
        },
    decreases *node,
{
    let class: &String = match &node.class {
        Err(e) => return Err(e.clone()),
        Ok(None) => return Err("a node has no class".to_owned()),
        Ok(Some(class)) => class,
    };
    match &node.name {
        Err(e) => return Err(e.clone()),
        Ok(name) => {
            found.classes.put(class.as_str());
            if name.is_some() {
                found.note(class.as_str(), "Name");
            }
        },
    }
    if let Some(names) = &node.props {
        match note_props(names, class.as_str(), found) {
            Err(e) => return Err(e),
            Ok(_) => {},
        }
    }
    if let Some(kids) = &node.children {
        let ghost g = found@;
        let mut i: usize = 0;
        while i < kids.len()
            invariant
                i <= kids.len(),
                node.children == Some(*kids),
                walked(*node, old(found)@) == walked_over(kids@, kids@.len(), g),
                walked_over(kids@, i as nat, g) == Ok::<FoundView, Seq<char>>(found@),
            decreases kids.len() - i,
        {
            match &kids[i] {
                Err(e) => {
                    proof {
                        walk_fails(kids@, (i + 1) as nat, kids@.len(), g, e@);
                    }
                    return Err(e.clone());
                },
                Ok(kid) => {
                    if let Ok(Some(kid_class)) = &kid.class {
                        found.note(kid_class.as_str(), "Parent");
                    }
                    assert(decreases_to!(*node => *kid)) by {
                        assert(decreases_to!(*node => node.children));
                        assert(decreases_to!(node.children => node.children->0));
                        assert(decreases_to!(kids => kids@));
                        assert(decreases_to!(kids@ => kids@[i as int]));
                        assert(decreases_to!(kids@[i as int] => kids@[i as int]->Ok_0));
                    }
                    match walk(kid, found) {
                        Err(e) => {
                            proof {
                                walk_fails(kids@, (i + 1) as nat, kids@.len(), g, e@);
                            }
                            return Err(e);
                        },
                        Ok(_) => {},
                    }
                },
            }
            i += 1;
        }
    }
    Ok(())
}

// ---- decoding ----

/// The fields that a claim about another host carries and a scene does not.
pub open spec fn claims() -> Seq<Seq<char>> {
    seq![
        "provenance"@,
        "verifiedAgainst"@,
        "expect"@,
        "expectAbsent"@,
        "ratios"@,
        "requires"@,
        "order"@,
        "golden"@,
        "pixels"@,
    ]
}

/// The first of the first so many claims that a scene carries.
pub open spec fn claimed(fields: Seq<Seq<char>>, count: nat) -> Option<Seq<char>>
    decreases count,
{
    if count == 0 {
        None
    } else {
        match claimed(fields, (count - 1) as nat) {
            Some(c) => Some(c),
            None => if fields.contains(claims()[count - 1]) {
                Some(claims()[count - 1])
            } else {
                None
            },
        }
    }
}

pub open spec fn claim_message(stem: Seq<char>, claim: Seq<char>) -> Seq<char> {
    stem + ": gallery scenes carry no '"@ + claim
        + "'. A scene shows the host rendering something; it states no belief about the engine. If this file wants to assert engine behaviour it is a conformance case and belongs in aether/conformance/cases. See ADR-005."@
}

pub open spec fn no_caption_message(stem: Seq<char>) -> Seq<char> {
    stem
        + ": no 'shows'. Every scene needs one sentence saying what to look                  for in the image -- it is what the generated index prints under the thumbnail."@
}

/// The single of 200, the width of a surface that says none.
pub const WIDTH: u32 = 0x4348_0000;

/// The single of 120, the height of a surface that says none.
pub const HEIGHT: u32 = 0x42f0_0000;

pub open spec fn size_of(raw: Option<RawSurface>) -> SurfaceSize {
    match raw {
        Some(s) => SurfaceSize {
            width: match s.width {
                Some(w) => w,
                None => WIDTH,
            },
            height: match s.height {
                Some(h) => h,
                None => HEIGHT,
            },
        },
        None => SurfaceSize { width: WIDTH, height: HEIGHT },
    }
}

/// A change that a scene offers: of what, to what.
pub open spec fn variant_of(raw: RawVariant, stem: Seq<char>) -> Result<
    SceneVariantView,
    Seq<char>,
> {
    match raw.node {
        Err(e) => Err(e@),
        Ok(None) => Err(stem + ": a variant has no 'node'"@),
        Ok(Some(node)) => match raw.prop {
            Err(e) => Err(e@),
            Ok(None) => Err(stem + ": a variant has no 'prop'"@),
            Ok(Some(property)) => match raw.value {
                Err(e) => Err(e@),
                Ok(None) => Err(stem + ": variant '"@ + property@ + "' has no 'value'"@),
                Ok(Some(value)) => Ok(
                    SceneVariantView { node: node@, property: property@, value },
                ),
            },
        },
    }
}

/// The first so many changes that a scene offers, in their order.
pub open spec fn variants_of(
    raw: Seq<Result<RawVariant, String>>,
    count: nat,
    stem: Seq<char>,
) -> Result<Seq<SceneVariantView>, Seq<char>>
    decreases count,
{
    if count == 0 {
        Ok(Seq::empty())
    } else {
        match variants_of(raw, (count - 1) as nat, stem) {
            Err(e) => Err(e),
            Ok(so_far) => match raw[count - 1] {
                Err(e) => Err(e@),
                Ok(v) => match variant_of(v, stem) {
                    Err(e) => Err(e),
                    Ok(view) => Ok(so_far.push(view)),
                },
            },
        }
    }
}

pub open spec fn variant_views(s: Seq<SceneVariant>) -> Seq<SceneVariantView> {
    s.map_values(|v: SceneVariant| v@)
}

/// What a scene is, apart from where it came from.
pub struct SceneView {
    pub name: Seq<char>,
    pub shows: Seq<char>,
    pub surface: SurfaceSize,
    pub found: FoundView,
    pub variants: Seq<SceneVariantView>,
}

/// The scene that was read, or why it is none. One that carries a claim is refused, and so is one
/// that does not say what it shows.
pub open spec fn decoded(raw: RawScene, stem: Seq<char>) -> Result<SceneView, Seq<char>> {
    match claimed(views(raw.fields@), claims().len()) {
        Some(c) => Err(claim_message(stem, c)),
        None => match (raw.name, raw.shows) {
            (Err(e), _) => Err(e@),
            (_, Err(e)) => Err(e@),
            (_, Ok(None)) => Err(no_caption_message(stem)),
            (Ok(name), Ok(Some(shows))) => match raw.tree {
                Err(e) => Err(e@),
                Ok(None) => Err(stem + ": no tree"@),
                Ok(Some(tree)) => match walked(tree, FoundView::none()) {
                    Err(e) => Err(stem + ": "@ + e),
                    Ok(found) => {
                        let variants = match raw.variants {
                            Some(list) => variants_of(list@, list@.len(), stem),
                            None => Ok(Seq::empty()),
                        };
                        match variants {
                            Err(e) => Err(e),
                            Ok(variants) => Ok(
                                SceneView {
                                    name: match name {
                                        Some(n) => n@,
                                        None => stem,
                                    },
                                    shows: shows@,
                                    surface: size_of(raw.surface),
                                    found,
                                    variants,
                                },
                            ),
                        }
                    },
                },
            },
        },
    }
}

impl Scene {
    /// Is this scene what was decoded?
    pub open spec fn is(self, v: SceneView) -> bool {
        &&& self.name@ == v.name
        &&& self.shows@ == v.shows
        &&& self.surface == v.surface
        &&& self.demonstrates@ == v.found.props
        &&& self.demonstrates_by_class@ == v.found.pairs
        &&& self.classes@ == v.found.classes
        &&& variant_views(self.variants@) == v.variants
    }
}

fn claim_list() -> (r: Vec<&'static str>)
    ensures
        r@.len() == claims().len(),
        forall|i: int| 0 <= i < r@.len() ==> (#[trigger] r@[i])@ == claims()[i],
{
    let mut r: Vec<&'static str> = Vec::new();
    r.push("provenance");
    r.push("verifiedAgainst");
    r.push("expect");
    r.push("expectAbsent");
    r.push("ratios");
    r.push("requires");
    r.push("order");
    r.push("golden");
    r.push("pixels");
    r
}

fn find_claim(fields: &Vec<String>) -> (r: Option<&'static str>)
    ensures
        match r {
            Some(c) => claimed(views(fields@), claims().len()) == Some(c@),
            None => claimed(views(fields@), claims().len()) is None,
        },
{
    let list = claim_list();
    let mut i: usize = 0;
    while i < list.len()
        invariant
            i <= list.len(),
            list@.len() == claims().len(),
            forall|j: int| 0 <= j < list@.len() ==> (#[trigger] list@[j])@ == claims()[j],
            claimed(views(fields@), i as nat) is None,
        decreases list.len() - i,
    {
        if listed(fields, list[i]) {
            proof {
                claim_stays(views(fields@), (i + 1) as nat, claims().len());
            }
            return Some(list[i]);
        }
        i += 1;
    }
    None
}

proof fn claim_stays(fields: Seq<Seq<char>>, at: nat, count: nat)
    requires
        at <= count,
        claimed(fields, at) is Some,
    ensures
        claimed(fields, count) == claimed(fields, at),
    decreases count,
{
    if at < count {
        claim_stays(fields, at, (count - 1) as nat);
    }
}

fn variant(raw: &RawVariant, stem: &str) -> (r: Result<SceneVariant, String>)
    ensures
        match r {
            Ok(v) => variant_of(*raw, stem@) == Ok::<SceneVariantView, Seq<char>>(v@),
            Err(e) => variant_of(*raw, stem@) == Err::<SceneVariantView, Seq<char>>(e@),
        },
{
    let node = match &raw.node {
        Err(e) => return Err(e.clone()),
        Ok(None) => return Err(glue(stem.to_owned(), ": a variant has no 'node'")),
        Ok(Some(node)) => node.clone(),
    };
    let property = match &raw.prop {
        Err(e) => return Err(e.clone()),
        Ok(None) => return Err(glue(stem.to_owned(), ": a variant has no 'prop'")),
        Ok(Some(property)) => property.clone(),
    };
    match &raw.value {
        Err(e) => Err(e.clone()),
        Ok(None) => Err(
            glue(
                glue(glue(stem.to_owned(), ": variant '"), property.as_str()),
                "' has no 'value'",
            ),
        ),
        Ok(Some(value)) => Ok(SceneVariant { node, property, value: *value }),
    }
}

proof fn variants_fail(
    raw: Seq<Result<RawVariant, String>>,
    at: nat,
    count: nat,
    stem: Seq<char>,
    e: Seq<char>,
)
    requires
        at <= count,
        variants_of(raw, at, stem) == Err::<Seq<SceneVariantView>, Seq<char>>(e),
    ensures
        variants_of(raw, count, stem) == Err::<Seq<SceneVariantView>, Seq<char>>(e),
    decreases count,
{
    if at < count {
        variants_fail(raw, at, (count - 1) as nat, stem, e);
    }
}

fn variants(raw: &Vec<Result<RawVariant, String>>, stem: &str) -> (r: Result<
    Vec<SceneVariant>,
    String,
>)
    ensures
        match r {
            Ok(v) => variants_of(raw@, raw@.len(), stem@) == Ok::<
                Seq<SceneVariantView>,
                Seq<char>,
            >(variant_views(v@)),
            Err(e) => variants_of(raw@, raw@.len(), stem@) == Err::<
                Seq<SceneVariantView>,
                Seq<char>,
            >(e@),
        },
{
    let mut r: Vec<SceneVariant> = Vec::new();
    let mut i: usize = 0;
    assert(variant_views(r@) =~= Seq::empty());
    while i < raw.len()
        invariant
            i <= raw.len(),
            variants_of(raw@, i as nat, stem@) == Ok::<Seq<SceneVariantView>, Seq<char>>(
                variant_views(r@),
            ),
        decreases raw.len() - i,
    {
        match &raw[i] {
            Err(e) => {
                proof {
                    variants_fail(raw@, (i + 1) as nat, raw@.len(), stem@, e@);
                }
                return Err(e.clone());
            },
            Ok(v) => match variant(v, stem) {
                Err(e) => {
                    proof {
                        variants_fail(raw@, (i + 1) as nat, raw@.len(), stem@, e@);
                    }
                    return Err(e);
                },
                Ok(made) => {
                    let ghost before = variant_views(r@);
                    let ghost view = made@;
                    r.push(made);
                    assert(variant_views(r@) =~= before.push(view));
                },
            },
        }
        i += 1;
    }
    Ok(r)
}

/// Make a scene of what was read.
pub fn decode_scene(raw: &RawScene, file_stem: &str, pillar: &str) -> (r: Result<Scene, String>)
    ensures
        match r {
            Ok(scene) => decoded(*raw, file_stem@) is Ok && scene.is(
                decoded(*raw, file_stem@)->Ok_0,
            ) && scene.file_stem@ == file_stem@ && scene.pillar@ == pillar@,
            Err(e) => decoded(*raw, file_stem@) == Err::<SceneView, Seq<char>>(e@),
        },
{
    if let Some(claim) = find_claim(&raw.fields) {
        return Err(
            glue(
                glue(glue(file_stem.to_owned(), ": gallery scenes carry no '"), claim),
                "'. A scene shows the host rendering something; it states no belief about the engine. If this file wants to assert engine behaviour it is a conformance case and belongs in aether/conformance/cases. See ADR-005.",
            ),
        );
    }
    let name = match &raw.name {
        Err(e) => return Err(e.clone()),
        Ok(Some(n)) => n.clone(),
        Ok(None) => file_stem.to_owned(),
    };
    let shows = match &raw.shows {
        Err(e) => return Err(e.clone()),
        Ok(Some(s)) => s.clone(),
        Ok(None) => return Err(
            glue(
                file_stem.to_owned(),
                ": no 'shows'. Every scene needs one sentence saying what to look                  for in the image -- it is what the generated index prints under the thumbnail.",
            ),
        ),
    };
    let surface = match raw.surface {
        Some(s) => SurfaceSize {
            width: match s.width {
                Some(w) => w,
                None => WIDTH,
            },
            height: match s.height {
                Some(h) => h,
                None => HEIGHT,
            },
        },
        None => SurfaceSize { width: WIDTH, height: HEIGHT },
    };
    let tree = match &raw.tree {
        Err(e) => return Err(e.clone()),
        Ok(None) => return Err(glue(file_stem.to_owned(), ": no tree")),
        Ok(Some(t)) => t,
    };
    let mut found = Found { props: Names::new(), pairs: Pairs::new(), classes: Names::new() };
    assert(found@ == FoundView::none());
    match walk(tree, &mut found) {
        Err(e) => return Err(glue(glue(file_stem.to_owned(), ": "), e.as_str())),
        Ok(_) => {},
    }
    let offered = match &raw.variants {
        None => {
            let none: Vec<SceneVariant> = Vec::new();
            assert(variant_views(none@) =~= Seq::empty());
            none
        },
        Some(list) => match variants(list, file_stem) {
            Err(e) => return Err(e),
            Ok(v) => v,
        },
    };
    Ok(
        Scene {
            file_stem: file_stem.to_owned(),
            pillar: pillar.to_owned(),
            name,
            shows,
            surface,
            demonstrates: found.props,
            demonstrates_by_class: found.pairs,
            classes: found.classes,
            variants: offered,
        },
    )
}

/// The directory of a scene, of those that lie under the directory of all scenes: `ungrouped`,
/// where the scene lies in that directory itself or not in it at all.
pub open spec fn pillar(path: Seq<Seq<char>>, root: Seq<Seq<char>>) -> Seq<char> {
    if root.len() + 2 <= path.len() && path.take(root.len() as int) == root && path[root.len()
        as int].len() > 0 {
        path[root.len() as int]
    } else {
        "ungrouped"@
    }
}

/// Which pillar a scene belongs to, by the components of its path.
pub fn pillar_of(path: &Vec<String>, root: &Vec<String>) -> (r: String)
    ensures
        r@ == pillar(views(path@), views(root@)),
{
    let n: usize = root.len();
    if path.len() < 2 || path.len() - 2 < n {
        return "ungrouped".to_owned();
    }
    let mut i: usize = 0;
    while i < n
        invariant
            i <= n,
            n == root.len(),
            n + 2 <= path.len(),
            forall|j: int| 0 <= j < i ==> (#[trigger] path@[j])@ == root@[j]@,
        decreases n - i,
    {
        if !same(path[i].as_str(), root[i].as_str()) {
            proof {
                assert(views(path@).take(n as int)[i as int] == path@[i as int]@);
                assert(views(root@)[i as int] == root@[i as int]@);
            }
            return "ungrouped".to_owned();
        }
        i += 1;
    }
    assert(views(path@).take(n as int) =~= views(root@));
    if path[n].as_str().unicode_len() == 0 {
        return "ungrouped".to_owned();
    }
    path[n].clone()
}

/// Where the images go, beside the directory of the scenes.
pub open spec fn renders(scenes: Seq<Seq<char>>) -> Seq<Seq<char>> {
    if scenes.len() == 0 || scenes.last() == "/"@ {
        seq!["gallery"@, "renders"@]
    } else {
        scenes.drop_last().push("renders"@)
    }
}

/// Where the images go, by the components of the path of the directory of the scenes.
pub fn default_render_dir(scenes: &Vec<String>) -> (r: Vec<String>)
    ensures
        views(r@) == renders(views(scenes@)),
{
    let n: usize = scenes.len();
    let mut r: Vec<String> = Vec::new();
    if n == 0 || same(scenes[n - 1].as_str(), "/") {
        r.push("gallery".to_owned());
        r.push("renders".to_owned());
        assert(views(r@) =~= renders(views(scenes@)));
        return r;
    }
    let mut i: usize = 0;
    while i < n - 1
        invariant
            n == scenes.len(),
            i < n,
            r@.len() == i,
            forall|j: int| 0 <= j < i ==> (#[trigger] r@[j])@ == scenes@[j]@,
        decreases n - i,
    {
        r.push(scenes[i].clone());
        i += 1;
    }
    r.push("renders".to_owned());
    assert(views(r@) =~= renders(views(scenes@)));
    r
}

// ---- laws ----

/// A scene that carries a claim is never decoded, whatever else it holds.
pub proof fn a_claim_is_always_refused(raw: RawScene, stem: Seq<char>, claim: int)
    requires
        0 <= claim < claims().len(),
        views(raw.fields@).contains(claims()[claim]),
    ensures
        decoded(raw, stem) is Err,
{
    claim_is_found(views(raw.fields@), claim, claims().len());
}

proof fn claim_is_found(fields: Seq<Seq<char>>, claim: int, count: nat)
    requires
        0 <= claim < count,
        fields.contains(claims()[claim]),
    ensures
        claimed(fields, count) is Some,
    decreases count,
{
    if claim < count - 1 {
        claim_is_found(fields, claim, (count - 1) as nat);
    }
}

/// A scene that is decoded says what it shows, in the words that were read.
pub proof fn a_scene_says_what_it_shows(raw: RawScene, stem: Seq<char>)
    requires
        decoded(raw, stem) is Ok,
    ensures
        raw.shows matches Ok(Some(s)) && decoded(raw, stem)->Ok_0.shows == s@,
{
}

} // verus!
