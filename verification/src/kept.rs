//! What can be said of applets, flags, extensions and scenes, whatever is done to keep them.

use crate::coverage::{classes_used, coverage_with_moved, scenes_of, uses, Coverage, Scope};
use crate::extensions::{
    default_for, describe, describe_enum, flag_for, known_flags, resolve_declaration, visible,
    DeclarationError, Tier,
};
use crate::flags::{effective_lines, is_enabled, switches_in, Enabled, Flag};
use crate::gallery::{
    decode_scene, default_render_dir, pillar_of, props_found, walked, walked_over, FoundView,
    RawNode, RawScene, Scene,
};
use crate::installed::{copy_step, install, set_enabled, uninstall, valid_id, CopyStep, Placing};
use crate::layout::{SolvedItem, Stage};
use crate::library::{home_of, launched, list, switched, Entry, Label, LibraryView};
use crate::names::Names;
use crate::notes::notes_of;
use crate::text::{decimal, views};
use crate::value::{DataTypeView, Descriptor, TypeView, Value, ValueView};
use vstd::prelude::*;

verus! {

// ---- installed applets ----

/// An id can stand for a directory of its own unless it is empty, names this directory or the one
/// above, or has a character in it that separates parts of a path.
pub proof fn an_id_is_one_part_of_a_path(id: &str, r: bool)
    requires
        call_ensures(valid_id, (id,), r),
    ensures
        id@.len() == 0 ==> !r,
        id@ == "."@ || id@ == ".."@ ==> !r,
        id@.contains('/') || id@.contains('\\') || id@.contains(':') ==> !r,
        id@.len() > 0 && id@ != "."@ && id@ != ".."@ && !id@.contains('/') && !id@.contains('\\')
            && !id@.contains(':') ==> r,
{
}

/// Of what lies in an applet, files are copied and directories are gone into, but for those that
/// hold packages; what is neither stays behind.
pub proof fn packages_stay_behind(name: &str, dir: CopyStep, file: CopyStep, other: CopyStep)
    requires
        call_ensures(copy_step, (name, true, false), dir),
        call_ensures(copy_step, (name, false, true), file),
        call_ensures(copy_step, (name, false, false), other),
    ensures
        dir == (if name@ == "roblox_packages"@ || name@ == "luau_packages"@ || name@ == ".pesde"@ {
            CopyStep::Skip
        } else {
            CopyStep::Descend
        }),
        file == CopyStep::Copy,
        other == CopyStep::Skip,
{
}

/// An applet is installed where there is a store, its id can name a directory, and none of its id is
/// there; one that is there is replaced only by force.
pub proof fn installing_needs_room(
    source: &str,
    id: &str,
    ok: bool,
    fresh: Result<Placing, String>,
    again: Result<Placing, String>,
    forced: Result<Placing, String>,
    homeless: Result<Placing, String>,
)
    requires
        call_ensures(valid_id, (id,), ok),
        call_ensures(install, (source, id, true, false, false), fresh),
        call_ensures(install, (source, id, true, true, false), again),
        call_ensures(install, (source, id, true, true, true), forced),
        call_ensures(install, (source, id, false, false, true), homeless),
    ensures
        fresh is Ok == ok,
        ok ==> fresh->Ok_0 == Placing::Fresh,
        again is Err,
        forced is Ok == ok,
        ok ==> forced->Ok_0 == Placing::Replace,
        homeless is Err,
{
}

/// An applet is taken out or switched only where there is a store with it in it; and once it is
/// switched, the state file says so of it and what it said before of every other.
pub proof fn only_what_is_there_is_switched(
    id: &str,
    on: bool,
    has_store: bool,
    there: bool,
    state: &str,
    said: Map<Seq<char>, bool>,
    out: Result<(), String>,
    r: Result<Option<String>, String>,
    other: Seq<char>,
)
    requires
        switches_in(state@) == Some(said),
        call_ensures(uninstall, (id, has_store, there), out),
        call_ensures(set_enabled, (id, on, has_store, there, Some(state)), r),
    ensures
        out is Ok == (has_store && there),
        r is Ok == (has_store && there),
        r is Ok ==> r->Ok_0 is Some && ({
            let now = switches_in(r->Ok_0->0@);
            &&& now is Some
            &&& now->0.contains_key(id@) && now->0[id@] == on
            &&& other != id@ ==> now->0.contains_key(other) == said.contains_key(other)
            &&& other != id@ && said.contains_key(other) ==> now->0[other] == said[other]
        }),
{
}

// ---- the library ----

/// Launching an applet that does not run asks for the directory of the first applet of its id and
/// for nothing else; where there is none of its id, nothing is asked for.
pub proof fn launching_asks_for_its_directory(
    v: LibraryView,
    applets: Seq<crate::installed::Entry>,
    id: Seq<char>,
    k: int,
)
    requires
        0 <= k < applets.len(),
        applets[k].id@ == id,
        forall|j: int| 0 <= j < k ==> (#[trigger] applets[j]).id@ != id,
    ensures
        launched(v, Ok(false), applets, id) == Ok::<LibraryView, Seq<char>>(
            LibraryView { load: v.load.push(applets[k].dir@), unload: v.unload },
        ),
        switched(v, Ok(false), Ok(()), applets, id, true) == Ok::<LibraryView, Seq<char>>(
            LibraryView { load: v.load.push(applets[k].dir@), unload: v.unload },
        ),
        switched(v, Ok(true), Ok(()), applets, id, false) == Ok::<LibraryView, Seq<char>>(
            LibraryView { load: v.load, unload: v.unload.push(id) },
        ),
{
    first_home(applets, id, 0, k);
}

proof fn first_home(applets: Seq<crate::installed::Entry>, id: Seq<char>, from: nat, k: int)
    requires
        from <= k < applets.len(),
        applets[k].id@ == id,
        forall|j: int| 0 <= j < k ==> (#[trigger] applets[j]).id@ != id,
    ensures
        home_of(applets, id, from) == Some(applets[k].dir@),
    decreases k - from,
{
    if from < k {
        first_home(applets, id, from + 1, k);
    }
}

/// What is not installed is not launched, and a failure to find out or to store is passed on.
pub proof fn a_failure_asks_for_nothing(
    v: LibraryView,
    applets: Seq<crate::installed::Entry>,
    id: Seq<char>,
    e: String,
    on: bool,
)
    requires
        forall|j: int| 0 <= j < applets.len() ==> (#[trigger] applets[j]).id@ != id,
    ensures
        launched(v, Ok(false), applets, id) is Err,
        launched(v, Err(e), applets, id) == Err::<LibraryView, Seq<char>>(e@),
        switched(v, Err(e), Ok(()), applets, id, on) == Err::<LibraryView, Seq<char>>(e@),
        switched(v, Ok(on), Err(e), applets, id, on) == Err::<LibraryView, Seq<char>>(e@),
{
    no_home(applets, id, 0);
}

proof fn no_home(applets: Seq<crate::installed::Entry>, id: Seq<char>, from: nat)
    requires
        forall|j: int| 0 <= j < applets.len() ==> (#[trigger] applets[j]).id@ != id,
    ensures
        home_of(applets, id, from) is None,
    decreases applets.len() - from,
{
    if from < applets.len() {
        no_home(applets, id, from + 1);
    }
}

/// An applet that runs is not removed, and one that does not run may be.
pub proof fn what_runs_is_not_removed(
    id: &str,
    e: String,
    runs: Result<(), String>,
    rests: Result<(), String>,
    unknown: Result<(), String>,
)
    requires
        call_ensures(crate::library::uninstall, (Ok(true), id), runs),
        call_ensures(crate::library::uninstall, (Ok(false), id), rests),
        call_ensures(crate::library::uninstall, (Err(e), id), unknown),
    ensures
        runs is Err,
        rests is Ok,
        unknown is Err && unknown->Err_0@ == e@,
{
}

/// The list for a guest has a row for each applet in their order, with the name and the text of its
/// manifest, or with its id for a name where there is no manifest to read.
pub proof fn every_applet_has_a_row(
    applets: Vec<crate::installed::Entry>,
    labels: Vec<Option<Label>>,
    r: Vec<Entry>,
    i: int,
)
    requires
        applets@.len() == labels@.len(),
        call_ensures(list, (&applets, &labels), r),
        0 <= i < applets@.len(),
    ensures
        r@.len() == applets@.len(),
        r@[i].id@ == applets@[i].id@,
        r@[i].enabled == applets@[i].enabled,
        labels@[i] matches Some(l) ==> r@[i].name@ == l.name@ && r@[i].description@
            == l.description@,
        labels@[i] is None ==> r@[i].name@ == applets@[i].id@ && r@[i].description@ == ""@,
{
    assert(crate::library::tells_of(r@[i], applets@[i]@, labels@[i]));
}

// ---- flags and extensions ----

/// What is said of a flag that is on names it and its revision.
pub proof fn a_flag_is_told_with_its_revision(flags: &[Flag], r: Vec<String>, i: int)
    requires
        call_ensures(effective_lines, (flags,), r),
        0 <= i < flags@.len(),
    ensures
        r@.len() == flags@.len(),
        r@[i]@ == "[dew] experimental: "@ + flags@[i].0@ + " (revision "@ + decimal(
            flags@[i].1 as nat,
        ) + ")"@,
{
    assert(views(r@).len() == crate::flags::flag_views(flags@).len());
    assert(views(r@)[i] == r@[i]@);
}

/// A permanent extension is visible always, and an experimental one exactly with its flag on.
pub proof fn a_flag_shows_what_it_gates(
    on: Enabled,
    flag: &'static str,
    revision: u32,
    a: bool,
    b: bool,
    has: bool,
)
    requires
        call_ensures(visible, (&on, &Tier::DewOnly), a),
        call_ensures(visible, (&on, &Tier::Experimental { flag, revision }), b),
        call_ensures(is_enabled, (&on, flag), has),
    ensures
        a,
        b == has,
{
}

/// The blending mode of an element is there exactly with its flag on: it is a member of its
/// enumeration, may be assigned, and is the member numbered zero where nothing was assigned. The
/// action of a label is always there, and is an empty text at first.
pub proof fn what_the_extensions_are(
    on: Enabled,
    has: bool,
    d: Option<Descriptor>,
    v: Option<Value>,
    a: Option<Descriptor>,
    t: Option<Value>,
    items: Option<Vec<(&'static str, u32)>>,
)
    requires
        call_ensures(is_enabled, (&on, "FFlagDewGuiObjectBlendingMode"), has),
        call_ensures(describe, (&on, "GuiObject", "BlendingMode"), d),
        call_ensures(default_for, (&on, "GuiObject", "BlendingMode"), v),
        call_ensures(describe, (&on, "InputActionLabel", "InputAction"), a),
        call_ensures(default_for, (&on, "InputActionLabel", "InputAction"), t),
        call_ensures(describe_enum, (&on, "BlendMode"), items),
    ensures
        d is Some == has && v is Some == has && items is Some == has,
        has ==> d->0@.data_type == DataTypeView::Enum("BlendMode"@) && d->0@.writable,
        has ==> v->0@ == ValueView::Enum(0),
        has ==> items->0@.len() == 3 && (items->Some_0)@[0].0@ == "Alpha"@ && (items->Some_0)@[0].1 == 0
            && (items->Some_0)@[1].0@ == "Additive"@ && (items->Some_0)@[1].1 == 1 && (items->Some_0)@[2].0@
            == "Multiply"@ && (items->Some_0)@[2].1 == 2,
        a is Some && a->0@.data_type == DataTypeView::Value(TypeView::Text) && a->0@.writable,
        t is Some && t->0@ == ValueView::Text(Seq::empty()),
{
    reveal_with_fuel(crate::extensions::visible_property_in, 4);
    reveal_strlit("GuiObject");
    reveal_strlit("InputActionLabel");
    reveal_strlit("DewSprintTestOnly");
    assert("GuiObject"@.len() == 9 && "InputActionLabel"@.len() == 16 && "DewSprintTestOnly"@.len()
        == 17);
    let rows = crate::extensions::property_rows();
    assert(rows.skip(1)[0] == rows[1]);
    assert(rows.skip(1).skip(1)[0] == rows[2]);
    assert(rows.skip(1).skip(1).skip(1).len() == 0);
    if has {
        let s = crate::extensions::item_views(items->0@);
        assert(s.len() == items->0@.len());
        assert(s[0] == ((items->Some_0)@[0].0@, (items->Some_0)@[0].1));
        assert(s[1] == ((items->Some_0)@[1].0@, (items->Some_0)@[1].1));
        assert(s[2] == ((items->Some_0)@[2].0@, (items->Some_0)@[2].1));
    }
}

/// A declaration without a revision is refused as such, and one that is accepted ends in the number
/// of the revision of the flag that it unlocks.
pub proof fn a_declaration_pins_the_revision(
    d: &str,
    r: Result<Flag, DeclarationError>,
    key: &str,
    f: Option<Flag>,
    at: int,
)
    requires
        call_ensures(resolve_declaration, (d,), r),
        call_ensures(flag_for, (key,), f),
        0 <= at < d@.len(),
        d@[at] == '@',
        forall|j: int| at < j < d@.len() ==> d@[j] != '@',
        key@ == d@.take(at),
    ensures
        r is Ok ==> f is Some && (f->Some_0).0@ == (r->Ok_0).0@ && (f->Some_0).1 == (r->Ok_0).1,
        r is Ok ==> crate::extensions::number_in(d@.skip(at + 1)) == Some((r->Ok_0).1),
        f is Some && crate::extensions::number_in(d@.skip(at + 1)) == Some((f->Some_0).1) ==> r is Ok,
        f is Some && crate::extensions::number_in(d@.skip(at + 1)) is Some
            && crate::extensions::number_in(d@.skip(at + 1)) != Some((f->Some_0).1) ==> (
        r matches Err(DeclarationError::RevisionMismatch { declared, current }) && current
            == (f->Some_0).1 && Some(declared) == crate::extensions::number_in(d@.skip(at + 1))),
        f is None && crate::extensions::number_in(d@.skip(at + 1)) is Some ==> r matches Err(
            DeclarationError::UnknownProperty,
        ),
        crate::extensions::number_in(d@.skip(at + 1)) is None ==> r matches Err(
            DeclarationError::InvalidRevision(_),
        ),
{
    assert(d@.contains('@')) by {
        assert(d@[at] == '@');
    }
    d@.index_of_last_ensures('@');
    assert(d@.index_of_last('@') == Some(at));
}

/// A declaration without a revision is refused for that.
pub proof fn a_declaration_without_a_revision_is_refused(
    d: &str,
    r: Result<Flag, DeclarationError>,
)
    requires
        call_ensures(resolve_declaration, (d,), r),
        !d@.contains('@'),
    ensures
        r matches Err(DeclarationError::MissingRevision),
{
}

/// Another digit behind a number makes it ten times as large and adds the digit.
pub proof fn a_digit_behind_counts_once(s: Seq<char>, c: char)
    requires
        crate::extensions::digits_value(s) is Some,
    ensures
        '0' <= c <= '9' ==> crate::extensions::digits_value(s.push(c)) == Some(
            (crate::extensions::digits_value(s)->0 * 10 + (c as u32 - 48)) as nat,
        ),
        !('0' <= c <= '9') ==> crate::extensions::digits_value(s.push(c)) is None,
        crate::extensions::digits_value(Seq::empty()) == Some(0nat),
{
    assert(s.push(c).drop_last() =~= s);
}

// ---- scenes ----

/// A tree demonstrates every property that it sets, on the class that sets it; its own class is
/// used, and a node with a name demonstrates that too.
pub proof fn a_tree_demonstrates_what_it_sets(
    node: RawNode,
    f: FoundView,
    class: String,
    names: Vec<Result<String, String>>,
    i: int,
)
    requires
        node.class == Ok::<Option<String>, String>(Some(class)),
        node.props == Some(names),
        node.children is None,
        walked(node, f) is Ok,
        0 <= i < names@.len(),
    ensures
        ({
            let g = walked(node, f)->Ok_0;
            &&& g.classes == f.classes.insert(class@)
            &&& names@[i] is Ok
            &&& g.props.contains(names@[i]->Ok_0@)
            &&& g.pairs.contains((class@, names@[i]->Ok_0@))
            &&& node.name matches Ok(Some(_)) ==> g.props.contains("Name"@) && g.pairs.contains(
                (class@, "Name"@),
            )
        }),
{
    let seen = f.with_class(class@);
    let named = if node.name->Ok_0 is Some {
        seen.with(class@, "Name"@)
    } else {
        seen
    };
    assert(node.name is Ok);
    all_props_found(names@, names@.len(), class@, named, i);
}

proof fn all_props_found(
    names: Seq<Result<String, String>>,
    count: nat,
    class: Seq<char>,
    f: FoundView,
    i: int,
)
    requires
        count <= names.len(),
        props_found(names, count, class, f) is Ok,
    ensures
        ({
            let g = props_found(names, count, class, f)->Ok_0;
            &&& g.classes == f.classes
            &&& f.props.subset_of(g.props)
            &&& f.pairs.subset_of(g.pairs)
            &&& 0 <= i < count ==> names[i] is Ok && g.props.contains(names[i]->Ok_0@)
                && g.pairs.contains((class, names[i]->Ok_0@))
        }),
    decreases count,
{
    if count > 0 {
        all_props_found(names, (count - 1) as nat, class, f, i);
    }
}

/// What is under another node demonstrates its parent.
pub proof fn what_is_under_a_node_has_a_parent(
    kid: RawNode,
    f: FoundView,
    class: String,
)
    requires
        kid.class == Ok::<Option<String>, String>(Some(class)),
        kid.props is None,
        kid.children is None,
        kid.name is Ok,
    ensures
        ({
            let kids = seq![Ok::<RawNode, String>(kid)];
            let g = walked_over(kids, 1, f);
            &&& g is Ok
            &&& g->Ok_0.props.contains("Parent"@)
            &&& g->Ok_0.pairs.contains((class@, "Parent"@))
            &&& g->Ok_0.classes.contains(class@)
        }),
{
    let kids = seq![Ok::<RawNode, String>(kid)];
    assert(walked_over(kids, 0, f) == Ok::<FoundView, Seq<char>>(f));
    assert(kids[0] == Ok::<RawNode, String>(kid));
    reveal_with_fuel(walked_over, 2);
    reveal_with_fuel(walked, 2);
}

/// A scene that is read keeps its size, its sentence and its changes, and stands for the file and
/// the directory that it came from; without a name it bears that of its file, and without a size it
/// is two hundred by one hundred and twenty.
pub proof fn a_scene_is_what_was_read(raw: RawScene, stem: &str, pillar: &str, r: Result<Scene, String>)
    requires
        call_ensures(decode_scene, (&raw, stem, pillar), r),
        r is Ok,
    ensures
        ({
            let s = r->Ok_0;
            &&& s.file_stem@ == stem@
            &&& s.pillar@ == pillar@
            &&& raw.name matches Ok(Some(n)) ==> s.name@ == n@
            &&& raw.name matches Ok(None) ==> s.name@ == stem@
            &&& raw.shows matches Ok(Some(t)) && s.shows@ == t@
            &&& raw.surface is None ==> s.surface.width == 0x4348_0000 && s.surface.height
                == 0x42f0_0000
            &&& raw.surface matches Some(z) ==> {
                &&& z.width matches Some(w) ==> s.surface.width == w
                &&& z.height matches Some(h) ==> s.surface.height == h
            }
        }),
{
}

/// A scene belongs to the directory right under that of all scenes, where it lies deeper than that.
pub proof fn a_scene_belongs_to_its_directory(path: Vec<String>, root: Vec<String>, r: String)
    requires
        call_ensures(pillar_of, (&path, &root), r),
        views(path@).take(root@.len() as int) == views(root@),
        path@.len() >= root@.len() + 2,
    ensures
        path@[root@.len() as int]@.len() > 0 ==> r@ == path@[root@.len() as int]@,
        path@[root@.len() as int]@.len() == 0 ==> r@ == "ungrouped"@,
{
    assert(views(path@)[root@.len() as int] == path@[root@.len() as int]@);
}

/// The images of scenes lie beside the directory of the scenes.
pub proof fn images_lie_beside_the_scenes(scenes: Vec<String>, r: Vec<String>)
    requires
        call_ensures(default_render_dir, (&scenes,), r),
        scenes@.len() > 0,
        scenes@.last()@ != "/"@,
    ensures
        r@.len() == scenes@.len(),
        r@.last()@ == "renders"@,
        forall|i: int| 0 <= i < r@.len() - 1 ==> (#[trigger] r@[i])@ == scenes@[i]@,
{
    let a = views(r@);
    let b = views(scenes@);
    assert(b.last() == scenes@.last()@);
    assert(a.len() == r@.len() && b.len() == scenes@.len());
    assert(a.last() == r@.last()@);
    assert forall|i: int| 0 <= i < r@.len() - 1 implies (#[trigger] r@[i])@ == scenes@[i]@ by {
        assert(a[i] == r@[i]@);
        assert(b[i] == scenes@[i]@);
    }
}

/// What the scenes cover of a scope: a property is demonstrated where it is in scope and a scene
/// sets it, missing where it is in scope and none does, and shown where it is in scope and moved.
pub proof fn coverage_counts_what_scenes_set(
    scenes: Vec<Scene>,
    moved: Names,
    scope: Scope,
    c: Coverage,
    k: int,
    p: Seq<char>,
)
    requires
        crate::coverage::pairs_of(scope.by_class) <= usize::MAX,
        call_ensures(coverage_with_moved, (&scenes, &moved, &Some(scope)), c),
        0 <= k < scenes@.len(),
    ensures
        c.in_scope@ == scope.properties@,
        scope.properties@.contains(p) && scenes@[k].demonstrates@.contains(p)
            ==> c.demonstrated@.contains(p) && !views(c.missing@).contains(p),
        !scope.properties@.contains(p) ==> !c.demonstrated@.contains(p)
            && !c.differential@.contains(p) && !c.excused@.contains(p),
        scope.properties@.contains(p) && moved@.contains(p) ==> c.differential@.contains(p),
        !moved@.contains(p) ==> !c.differential@.contains(p),
        scope.properties@.contains(p) && p == "Name"@ ==> c.excused@.contains(p),
        scope.properties@.contains(p) && (forall|i: int|
            0 <= i < scenes@.len() ==> !(#[trigger] scenes@[i]).demonstrates@.contains(p))
            ==> views(c.missing@).contains(p),
{
    assert(c.measures(scenes@, moved@, scope));
    let all = scope.properties@;
    if all.contains(p) && scenes@[k].demonstrates@.contains(p) {
        assert(crate::coverage::sets_property(scenes@, p));
        assert(c.demonstrated@.contains(p));
        if views(c.missing@).contains(p) {
            assert(views(c.missing@).to_set().contains(p));
        }
    }
    if p == "Name"@ {
        assert(crate::paint::excuses()[0].0 == p);
        assert(crate::paint::is_excused(p));
    }
    if all.contains(p) && !crate::coverage::sets_property(scenes@, p) {
        assert(!c.demonstrated@.contains(p));
        assert(views(c.missing@).to_set().contains(p));
    }
}

/// A class is counted once for each scene that uses it, and a scene once in its own directory.
pub proof fn each_scene_counts_once(scenes: Seq<Scene>, s: Scene, class: Seq<char>, pillar: Seq<char>)
    ensures
        ({
            let more = scenes.push(s);
            let one: nat = if s.classes@.contains(class) {
                1
            } else {
                0
            };
            let here: nat = if s.pillar@ == pillar {
                1
            } else {
                0
            };
            &&& uses(more, class, more.len()) == uses(scenes, class, scenes.len()) + one
            &&& scenes_of(more, pillar, more.len()) == scenes_of(scenes, pillar, scenes.len()) + here
            &&& uses(Seq::empty(), class, 0) == 0
            &&& scenes_of(Seq::empty(), pillar, 0) == 0
        }),
{
    let more = scenes.push(s);
    counts_are_local(scenes, s, class, pillar, scenes.len());
    assert(more[more.len() - 1] == s);
}

proof fn counts_are_local(
    scenes: Seq<Scene>,
    s: Scene,
    class: Seq<char>,
    pillar: Seq<char>,
    count: nat,
)
    requires
        count <= scenes.len(),
    ensures
        uses(scenes.push(s), class, count) == uses(scenes, class, count),
        scenes_of(scenes.push(s), pillar, count) == scenes_of(scenes, pillar, count),
    decreases count,
{
    if count > 0 {
        counts_are_local(scenes, s, class, pillar, (count - 1) as nat);
        assert(scenes.push(s)[count - 1] == scenes[count - 1]);
    }
}

// ---- notes ----

/// An element that could not be measured is told of once for each axis, across first, by its name
/// and its number; one with nothing in it is not told of.
pub proof fn a_note_tells_of_each_axis<S, R>(st: Stage<R>, item: SolvedItem<S>)
    requires
        st.dom.alive(item.id),
        crate::layout::laid_out_kids(st, item.id).len() > 0,
    ensures
        ({
            let n = notes_of(st, item);
            let name = st.dom.node(item.id).name;
            let across = item.stuck.x;
            let down = item.stuck.y;
            &&& n.len() == (if across {
                1int
            } else {
                0
            }) + (if down {
                1int
            } else {
                0
            })
            &&& across ==> n[0].key == "unmeasurable_x_"@ + decimal(item.id as nat)
            &&& down ==> n.last().key == "unmeasurable_y_"@ + decimal(item.id as nat)
            &&& across ==> n[0].message == name
                + ": AutomaticSize.X measured nothing -- every descendant is sized by scale on X, so it kept its authored width"@
            &&& down ==> n.last().message == name
                + ": AutomaticSize.Y measured nothing -- every descendant is sized by scale on Y, so it kept its authored height"@
        }),
{
}

} // verus!
