//! What holds of the library as a whole, on concrete values.

use dew_host::agenda::{Agenda, Arg, Progress, Step};
use dew_host::collection::{
    add_tag, get_tagged, get_tags, has_tag, instance_added_signal, remove_tag,
};
use dew_host::connection::Signal;
use dew_host::content::{font_new, member_font_new, member_font_text, weight_item, EitherEnum};
use dew_host::dom::Dom;
use dew_host::enums::{enum_member, enum_named, get_enum_items};
use dew_host::guest::{coerce, coerce_attribute_value, coerce_enum, whole_i32, Guest, Number};
use dew_host::handles::Handles;
use dew_host::input::{get_scroll_velocity, Button, Point, Pointer, Surface};
use dew_host::instance::{assign, index, text_of, Reading};
use dew_host::layout::{Box2, Layout, NoFonts};
use dew_host::members::{
    create, find_ancestor, find_child, implements, is_ancestor_of, is_descendant_of, lookup,
    property_signal, Member, Query,
};
use dew_host::names::Names;
use dew_host::notes::note_once_layout;
use dew_host::operations::{capture_focus, clear_all_children, destroy, fire, release_focus};
use dew_host::ranked::rank_in;
use dew_host::reflection::{Catalog, EnumItem};
use dew_host::render::{commit_geometry, frame_of};
use dew_host::scalar::{clamp, Fixed, Scalar};
use dew_host::signal::Kind;
use dew_host::value::{Color3, Content, DataType, Rect, UDim, UDim2, Value, VariantType, Vector2};
use dew_host::vocabulary::{
    color3_from_hex, is_alike, rect_width, udim2_new, udim2_plus, vector2_product,
    vector2_times,
};
use dew_host::world::{Impulse, World};

fn single(x: f32) -> u32 {
    x.to_bits()
}

fn num(x: f64) -> Guest {
    Guest::Number(plain(x))
}

fn plain(x: f64) -> Number {
    Number {
        integer: false,
        wide: x.to_bits(),
        narrow: (x as f32).to_bits(),
        shown: format!("{x}"),
    }
}

fn fixed(x: f64) -> Fixed {
    Fixed {
        steps: (x * 65536.0) as i64,
    }
}

fn worth(x: Fixed) -> f64 {
    x.steps as f64 / 65536.0
}

fn new(world: &mut World, class: &str, name: &str) -> usize {
    world.dom.insert(class.to_string(), name.to_string())
}

fn under(world: &mut World, class: &str, name: &str, parent: usize) -> usize {
    let id = new(world, class, name);
    world.dom.set_parent(id, Some(parent)).expect("parent");
    id
}

fn listen(world: &mut World, id: usize, kind: Kind, function: u64) -> usize {
    Signal { id, kind }
        .connect(&mut world.dom, function)
        .expect("connect")
}

/// Perform an operation, and tell which functions were called with what.
fn perform(world: &mut World, agenda: Agenda) -> Vec<(u64, String)> {
    let mut agenda = agenda;
    let mut calls = Vec::new();
    loop {
        match agenda.step(world) {
            Progress::Done => return calls,
            Progress::Quiet => {}
            Progress::Refused(fault) => panic!("{}", fault.message),
            Progress::Call(call) => {
                calls.push((call.function, format!("{} {:?}", call.kind.label(), call.arg)))
            }
        }
    }
}

fn functions(calls: &[(u64, String)]) -> Vec<u64> {
    calls.iter().map(|c| c.0).collect()
}

fn set(world: &mut World, catalog: &Catalog, id: usize, key: &str, value: Guest) {
    let agenda = assign(world, catalog, id, key, &value).expect("assign");
    perform(world, agenda);
}

#[test]
fn listeners_are_called_in_their_order() {
    let mut world = World::new();
    let id = new(&mut world, "Frame", "F");
    listen(&mut world, id, Kind::Changed, 1);
    let second = listen(&mut world, id, Kind::Changed, 2);
    listen(&mut world, id, Kind::Changed, 3);
    listen(&mut world, id, Kind::ChildAdded, 4);
    world.dom.disconnect(second);
    let agenda = fire(id, Kind::Changed, Arg::Name("Size".to_string()));
    let calls = perform(&mut world, agenda);
    assert_eq!(functions(&calls), vec![1, 3]);
    assert_eq!(calls[0].1, r#"Changed Name("Size")"#);

    let mut world = World::new();
    let id = new(&mut world, "Frame", "F");
    listen(&mut world, id, Kind::Changed, 7);
    let mut agenda = Agenda::of(Step::Fire {
        to: id,
        kind: Kind::Changed,
        arg: Arg::Nothing,
    });
    assert!(!agenda.is_done());
    agenda.put(Step::Forget { id });
    assert_eq!(functions(&perform(&mut world, agenda)), vec![7]);
    assert!(Agenda::new().is_done());
}

#[test]
fn the_narrow_event_comes_before_the_wide_one() {
    let catalog = Catalog::load();
    let mut world = World::new();
    let id = new(&mut world, "Frame", "F");
    listen(&mut world, id, Kind::Changed, 1);
    listen(&mut world, id, Kind::PropertyChanged("Visible".to_string()), 2);
    listen(&mut world, id, Kind::PropertyChanged("Size".to_string()), 3);
    let agenda = assign(&mut world, &catalog, id, "Visible", &Guest::Bool(false)).expect("assign");
    let calls = perform(&mut world, agenda);
    assert_eq!(functions(&calls), vec![2, 1]);
}

#[test]
fn a_move_tells_the_old_place_before_the_new() {
    let catalog = Catalog::load();
    let mut world = World::new();
    let from = new(&mut world, "Frame", "From");
    let to = new(&mut world, "Frame", "To");
    let child = under(&mut world, "Frame", "Child", from);
    let grandchild = under(&mut world, "Frame", "Grandchild", child);
    listen(&mut world, from, Kind::DescendantRemoving, 1);
    listen(&mut world, from, Kind::ChildRemoved, 2);
    listen(&mut world, to, Kind::ChildAdded, 3);
    listen(&mut world, to, Kind::DescendantAdded, 4);
    let agenda =
        assign(&mut world, &catalog, child, "Parent", &Guest::Instance(to)).expect("assign");
    let calls = perform(&mut world, agenda);
    let told: Vec<String> = calls.iter().map(|c| format!("{} {}", c.0, c.1)).collect();
    assert_eq!(
        told,
        vec![
            format!("1 DescendantRemoving Instance({child})"),
            format!("1 DescendantRemoving Instance({grandchild})"),
            format!("2 ChildRemoved Instance({child})"),
            format!("3 ChildAdded Instance({child})"),
            format!("4 DescendantAdded Instance({child})"),
            format!("4 DescendantAdded Instance({grandchild})"),
        ]
    );
    assert_eq!(world.dom.parent_of(child), Some(to));
    assert!(world.dom.children(from).is_empty());
    assert!(world.dom.is_ancestor_of(to, grandchild));
}

#[test]
fn a_destruction_frees_a_whole_subtree() {
    let mut world = World::new();
    let root = new(&mut world, "Folder", "Root");
    let top = under(&mut world, "Frame", "Top", root);
    let mid = under(&mut world, "Frame", "Mid", top);
    let leaf = under(&mut world, "Frame", "Leaf", mid);
    world.dom.add_tag(leaf, "Enemy");
    world.focus = Some(mid);
    let conn = listen(&mut world, leaf, Kind::Destroying, 1);
    listen(&mut world, root, Kind::ChildRemoved, 2);
    let calls = perform(&mut world, destroy(top));
    assert!(functions(&calls).contains(&1) && functions(&calls).contains(&2));
    for id in [top, mid, leaf] {
        assert!(!world.dom.is_alive(id));
    }
    assert!(world.dom.is_alive(root));
    assert!(world.dom.children(root).is_empty());
    assert!(world.dom.get_tagged("Enemy").is_empty());
    assert_eq!(world.focus, None);
    assert!(!world.dom.is_connected(conn));
    assert!(world.dom.take_dirty());

    let mut world = World::new();
    let root = new(&mut world, "Folder", "Root");
    let a = under(&mut world, "Frame", "A", root);
    let b = under(&mut world, "Frame", "B", a);
    let agenda = clear_all_children(&world.dom, root).expect("clear");
    perform(&mut world, agenda);
    assert!(world.dom.is_alive(root) && !world.dom.is_alive(a) && !world.dom.is_alive(b));
    let fault = clear_all_children(&world.dom, a).unwrap_err();
    assert_eq!(fault.message, "this instance has been destroyed");
}

#[test]
fn the_focus_moves_and_tells_both() {
    let mut world = World::new();
    let a = new(&mut world, "TextBox", "A");
    let b = new(&mut world, "TextBox", "B");
    listen(&mut world, a, Kind::FocusLost, 1);
    listen(&mut world, b, Kind::Focused, 2);
    listen(&mut world, b, Kind::FocusLost, 3);
    perform(&mut world, capture_focus(a));
    assert!(world.is_focused(a));
    let calls = perform(&mut world, capture_focus(b));
    assert_eq!(functions(&calls), vec![1, 2]);
    assert_eq!(calls[0].1, "FocusLost Bool(false)");
    assert!(perform(&mut world, capture_focus(b)).is_empty());
    assert!(perform(&mut world, release_focus(a, true)).is_empty());
    let calls = perform(&mut world, release_focus(b, true));
    assert_eq!(calls, vec![(3, "FocusLost Bool(true)".to_string())]);
    assert_eq!(world.focus, None);
}

fn read(world: &World, catalog: &Catalog, id: usize, key: &str) -> String {
    format!("{:?}", index(&world.dom, catalog, id, key).expect("index"))
}

#[test]
fn a_property_reads_what_was_assigned_and_the_others_stay() {
    let catalog = Catalog::load();
    let mut world = World::new();
    let id = new(&mut world, "Frame", "F");
    let before = read(&world, &catalog, id, "Visible");
    set(&mut world, &catalog, id, "ZIndex", num(3.0));
    assert_eq!(read(&world, &catalog, id, "ZIndex"), "Shown(Value(Int32(3)))");
    assert_eq!(read(&world, &catalog, id, "Visible"), before);
    assert!(world.dom.take_dirty());
    let again = assign(&mut world, &catalog, id, "ZIndex", &num(3.0)).expect("assign");
    assert!(again.is_done());
    assert!(!world.dom.take_dirty());
}

#[test]
fn a_read_only_property_is_never_assigned() {
    let catalog = Catalog::load();
    let mut world = World::new();
    let id = new(&mut world, "Frame", "F");
    for value in [num(1.0), Guest::Nil, Guest::Text("x".to_string())] {
        let fault = assign(&mut world, &catalog, id, "AbsoluteSize", &value).unwrap_err();
        assert!(fault.message.contains("read-only"), "{}", fault.message);
    }
    let fault = assign(&mut world, &catalog, id, "ClassName", &Guest::Nil).unwrap_err();
    assert!(fault.message.contains("read-only"), "{}", fault.message);
}

#[test]
fn a_name_is_read_while_its_instance_is_there() {
    let catalog = Catalog::load();
    let mut world = World::new();
    let id = new(&mut world, "Frame", "F");
    perform(&mut world, destroy(id));
    let gone = "this instance has been destroyed";
    assert_eq!(
        index(&world.dom, &catalog, id, "Name").unwrap_err().message,
        gone
    );
    assert_eq!(
        assign(&mut world, &catalog, id, "Name", &Guest::Text("x".to_string()))
            .unwrap_err()
            .message,
        gone
    );
    assert!(!text_of(&world.dom, id).is_empty());

    let catalog = Catalog::load();
    let mut world = World::new();
    let id = new(&mut world, "Frame", "F");
    let child = under(&mut world, "Frame", "Panel", id);
    under(&mut world, "Frame", "Name", id);
    assert!(matches!(
        index(&world.dom, &catalog, id, "Name"),
        Ok(Reading::Text(t)) if t == "F"
    ));
    assert!(matches!(
        index(&world.dom, &catalog, id, "Panel"),
        Ok(Reading::Instance(c)) if c == child
    ));
    assert!(index(&world.dom, &catalog, id, "Nothing").is_err());
}

#[test]
fn tags_are_put_on_once_and_taken_off() {
    let mut world = World::new();
    let a = new(&mut world, "Frame", "A");
    let b = new(&mut world, "Frame", "B");
    let signal = instance_added_signal(&mut world.dom, "Enemy");
    let conn = signal.connect(&mut world.dom, 9).expect("connect");
    assert!(world.dom.is_connected(conn));
    let first = add_tag(&mut world, b, "Enemy").expect("tag");
    assert_eq!(functions(&perform(&mut world, first)), vec![9]);
    let again = add_tag(&mut world, b, "Enemy").expect("tag");
    assert!(perform(&mut world, again).is_empty());
    let other = add_tag(&mut world, a, "Enemy").expect("tag");
    perform(&mut world, other);
    let more = add_tag(&mut world, b, "Boss").expect("tag");
    assert!(perform(&mut world, more).is_empty());
    assert_eq!(get_tagged(&world.dom, "Enemy"), vec![a, b]);
    assert_eq!(get_tags(&world.dom, b).expect("tags"), vec!["Boss", "Enemy"]);
    let off = remove_tag(&mut world, b, "Enemy").expect("tag");
    perform(&mut world, off);
    assert!(!has_tag(&world.dom, b, "Enemy").expect("tag"));
    assert!(has_tag(&world.dom, b, "Boss").expect("tag"));
    assert!(has_tag(&world.dom, a, "Enemy").expect("tag"));
    perform(&mut world, destroy(a));
    assert!(add_tag(&mut world, a, "Enemy").is_err());
    assert!(has_tag(&world.dom, a, "Enemy").is_err());
}

#[test]
fn a_connection_ends_with_itself_alone() {
    let mut world = World::new();
    let id = new(&mut world, "Frame", "F");
    let one = listen(&mut world, id, Kind::Changed, 1);
    let two = listen(&mut world, id, Kind::Changed, 1);
    assert_ne!(one, two);
    world.dom.disconnect(one);
    assert!(!world.dom.is_connected(one) && world.dom.is_connected(two));
    world.dom.disconnect(one);
    assert_eq!(functions(&perform(&mut world, fire(id, Kind::Changed, Arg::Nothing))), vec![1]);
    let signal = Signal {
        id,
        kind: Kind::Changed,
    };
    assert!(signal.is_same(&Signal { id, kind: Kind::Changed }, true));
    assert!(!signal.is_same(&Signal { id, kind: Kind::Changed }, false));
    assert!(!signal.is_same(&Signal { id, kind: Kind::Destroying }, true));
    assert!(!signal.wait().message.is_empty());
    perform(&mut world, destroy(id));
    assert!(signal.connect(&mut world.dom, 2).is_err());
}

#[test]
fn ancestry_is_one_way() {
    let mut dom = Dom::new();
    let a = dom.insert("Frame".to_string(), "A".to_string());
    let b = dom.insert("Frame".to_string(), "B".to_string());
    let c = dom.insert("Frame".to_string(), "C".to_string());
    dom.set_parent(b, Some(a)).expect("parent");
    dom.set_parent(c, Some(b)).expect("parent");
    assert!(dom.set_parent(a, Some(c)).is_err());
    assert!(dom.set_parent(a, Some(a)).is_err());
    assert_eq!(dom.ancestors(c), vec![b, a]);
    assert_eq!(dom.descendants(a), vec![b, c]);
    assert_eq!(dom.subtree(b), vec![b, c]);
    dom.set_parent(b, None).expect("parent");
    assert_eq!(dom.subtree(b), vec![b, c]);
    assert_eq!(dom.ancestors(c), vec![b]);
    assert!(dom.set_parent(a, Some(c)).is_ok());

    let catalog = Catalog::load();
    let mut world = World::new();
    let root = new(&mut world, "Folder", "Root");
    let a = under(&mut world, "TextLabel", "X", root);
    let b = under(&mut world, "Frame", "X", root);
    let c = under(&mut world, "TextButton", "Deep", a);
    let dom = &world.dom;
    assert!(is_ancestor_of(dom, root, c, true).expect("alive"));
    assert!(!is_ancestor_of(dom, c, root, true).expect("alive"));
    assert!(!is_ancestor_of(dom, root, root, true).expect("alive"));
    assert!(!is_ancestor_of(dom, root, c, false).expect("alive"));
    assert!(is_descendant_of(dom, c, root, true).expect("alive"));
    let find = |query, deep| find_child(dom, &catalog, root, query, deep).expect("alive");
    assert_eq!(find(Query::Named("X"), false), Some(a));
    assert_eq!(find(Query::OfClass("Frame"), false), Some(b));
    assert_eq!(find(Query::WhichIsA("GuiObject"), false), Some(a));
    assert_eq!(find(Query::Named("Deep"), false), None);
    assert_eq!(find(Query::Named("Deep"), true), Some(c));
    assert_eq!(
        find_ancestor(dom, &catalog, c, Query::WhichIsA("GuiObject")).expect("alive"),
        Some(a)
    );
    assert_eq!(
        find_ancestor(dom, &catalog, c, Query::OfClass("Frame")).expect("alive"),
        None
    );
}

#[test]
fn members_and_properties_belong_to_their_classes() {
    let catalog = Catalog::load();
    assert!(catalog.class_is_a("TextButton", "GuiButton"));
    assert!(catalog.class_is_a("TextButton", "TextButton"));
    assert!(!catalog.class_is_a("GuiButton", "TextButton"));
    assert!(implements(&catalog, "TextButton", "Activated"));
    assert!(implements(&catalog, "GuiButton", "Activated"));
    assert!(!implements(&catalog, "GuiObject", "Activated"));
    assert!(matches!(
        lookup(&catalog, "TextButton", "Activated"),
        Some(Member::Event(Kind::Activated))
    ));
    assert!(lookup(&catalog, "Frame", "Activated").is_none());
    let mut world = World::new();
    let button = new(&mut world, "TextButton", "B");
    assert!(matches!(
        index(&world.dom, &catalog, button, "Activated"),
        Ok(Reading::Member(Member::Event(Kind::Activated)))
    ));
    let refused = assign(&mut world, &catalog, button, "Text", &Guest::Nil).unwrap_err();
    assert_eq!(refused.message, "TextButton.Text expects a string, got nil");
    let inherited = catalog.describe("TextButton", "Visible").expect("property");
    assert!(inherited.writable);
    assert!(matches!(inherited.data_type, DataType::Value(VariantType::Bool)));
    assert!(matches!(
        catalog.default_for("TextButton", "Visible"),
        Some(Value::Bool(true))
    ));
    assert!(catalog.describe("Frame", "Visibel").is_none());
    assert!(catalog.accepts("Frame", "Size"));
    assert!(!catalog.accepts("Frame", "Text"));

    let catalog = Catalog::load();
    let mut world = World::new();
    let id = new(&mut world, "Frame", "F");
    assert_eq!(
        property_signal(&world.dom, &catalog, id, "Size").expect("signal").label(),
        Kind::PropertyChanged("Size".to_string()).label()
    );
    assert!(property_signal(&world.dom, &catalog, id, "Sise").is_err());
}

#[test]
fn without_a_database_only_the_hosts_own_is_known() {
    let catalog = Catalog::without_database();
    assert!(!catalog.class_exists("Frame"));
    assert!(catalog.class_exists("InputActionLabel"));
    assert!(catalog.describe("InputActionLabel", "InputAction").is_none());
    let mut dom = Dom::new();
    assert_eq!(
        create(&mut dom, &catalog, "Frame").unwrap_err().message,
        "Frame is not a valid class name"
    );
    assert!(create(&mut dom, &catalog, "InputActionLabel").is_ok());

    let bundled = Catalog::found(Ok(rbx_reflection_database::get_bundled()));
    assert!(bundled.class_exists("Frame"));
    assert!(create(&mut dom, &bundled, "Frame").is_ok());
    let unread = std::io::Error::new(std::io::ErrorKind::Other, "unreadable");
    let failed = Catalog::found(Err(rbx_reflection_database::Error::from(unread)));
    assert!(!failed.class_exists("Frame"));
}

#[test]
fn a_handle_lasts_as_long_as_its_instance() {
    let mut dom = Dom::new();
    let a = dom.insert("Frame".to_string(), "A".to_string());
    let b = dom.insert("Frame".to_string(), "B".to_string());
    let mut handles = Handles::new();
    handles.remember(a, 1);
    handles.remember(b, 2);
    assert!(handles.prune(&mut dom).is_empty());
    assert_eq!(handles.look(a), Some(1));
    dom.destroy(a);
    assert_eq!(handles.prune(&mut dom), vec![1]);
    assert_eq!(handles.look(a), None);
    assert_eq!(handles.look(b), Some(2));
    assert!(handles.prune(&mut dom).is_empty());
}

#[test]
fn values_that_fit_are_stored_and_others_are_refused() {
    let ok = coerce(&Guest::Bool(true), &VariantType::Bool, "Frame", "Visible").expect("bool");
    assert!(ok.matches(&Value::Bool(true)));
    let fault = coerce(&num(1.0), &VariantType::Bool, "Frame", "Visible").unwrap_err();
    assert!(fault.message.contains("expects a boolean"), "{}", fault.message);
    assert_eq!(whole_i32(&plain(3.0), "ZIndex").expect("whole"), 3);
    assert!(whole_i32(&plain(3.5), "ZIndex").is_err());
    assert_eq!(whole_i32(&plain(3e10), "ZIndex").expect("whole"), i32::MAX);
    assert!(whole_i32(&plain(f64::INFINITY), "ZIndex").is_err());
    assert!(coerce_attribute_value(&Guest::Nil).expect("nil").is_none());
    assert!(coerce_attribute_value(&Guest::Foreign("table".to_string())).is_err());
}

#[test]
fn members_fit_their_enumeration_and_nothing_else_does() {
    let catalog = Catalog::load();
    let fit = |g: &Guest| coerce_enum(&catalog, g, "AutomaticSize", "Frame", "AutomaticSize");
    assert_eq!(fit(&num(3.0)).expect("member"), 3);
    assert!(catalog.value_is_valid("AutomaticSize", 3));
    assert!(fit(&num(99.0)).is_err());
    assert!(fit(&num(0.5)).is_err());
    assert!(fit(&num(-1.0)).is_err());
    let own = catalog.item_by_name("AutomaticSize", "XY").expect("item");
    assert_eq!(fit(&Guest::Item(own)).expect("member"), 3);
    let alien = Guest::Item(EnumItem {
        ty: "FillDirection".to_string(),
        name: "Vertical".to_string(),
        value: 1,
    });
    assert!(fit(&alien).is_err());

    let catalog = Catalog::load();
    assert_eq!(enum_named(&catalog, "FontWeight").expect("enum"), "FontWeight");
    assert!(enum_named(&catalog, "FontWeights").is_err());
    for item in get_enum_items(&catalog, "FontWeight").expect("items") {
        let found = enum_member(&catalog, "FontWeight", &item.name).expect("member");
        assert_eq!(found.value, item.value);
        assert!(catalog.value_is_valid("FontWeight", item.value));
    }
    assert!(get_enum_items(&catalog, "FontWeights").is_err());
}

#[test]
fn a_font_has_a_weight_and_a_style_of_their_enumerations() {
    let catalog = Catalog::load();
    let font = font_new("Inter".to_string(), &num(700.0), &num(1.0)).expect("font");
    assert_eq!((font.weight, font.style), (700, 1));
    assert!(font_new("Inter".to_string(), &num(450.0), &Guest::Nil).is_err());
    let refused = member_font_new("Inter".to_string(), &num(450.0), &Guest::Nil).unwrap_err();
    assert_eq!(
        refused.message,
        "Font.new's weight must be an Enum.FontWeight member"
    );
    for n in [65936.0, 4294967696.0, -400.0, 400.5, f64::NAN] {
        assert!(font_new("Inter".to_string(), &num(n), &Guest::Nil).is_err(), "{n}");
        assert!(member_font_new("Inter".to_string(), &num(n), &Guest::Nil).is_err(), "{n}");
    }
    for n in [256.0, 257.0, -1.0, 0.5, f64::NAN] {
        assert!(font_new("Inter".to_string(), &Guest::Nil, &num(n)).is_err(), "{n}");
        assert!(member_font_new("Inter".to_string(), &Guest::Nil, &num(n)).is_err(), "{n}");
    }
    assert_eq!(
        font_new("Inter".to_string(), &num(65936.0), &Guest::Nil).unwrap_err().message,
        "there is no Enum.FontWeight numbered 65936"
    );
    let alien = Guest::Item(EnumItem {
        ty: "FillDirection".to_string(),
        name: "Vertical".to_string(),
        value: 1,
    });
    assert!(member_font_new("Inter".to_string(), &Guest::Nil, &alien).is_err());
    let refused = member_font_new("Inter".to_string(), &Guest::Nil, &num(9.0)).unwrap_err();
    assert_eq!(
        refused.message,
        "Font.new's style must be an Enum.FontStyle member"
    );
    let plain_one = member_font_new("Inter".to_string(), &Guest::Nil, &Guest::Nil).expect("font");
    assert_eq!((plain_one.weight, plain_one.style), (400, 0));
    match weight_item(&catalog, &font) {
        EitherEnum::Item(item) => assert_eq!(item.name, "Bold"),
        EitherEnum::Number(n) => panic!("{n}"),
    }
    assert!(member_font_text(&font).contains("Bold"), "{}", member_font_text(&font));
}

#[test]
fn likeness_is_within_a_type_and_both_ways() {
    let zero = Guest::Vector2(Vector2 { x: 0, y: 0 });
    let minus = Guest::Vector2(Vector2 {
        x: single(-0.0),
        y: 0,
    });
    let nan = Guest::Vector2(Vector2 {
        x: single(f32::NAN),
        y: 0,
    });
    assert!(is_alike(&zero, &minus));
    assert!(!is_alike(&nan, &nan));
    let dim = Guest::UDim(UDim { scale: 0, offset: 0 });
    assert!(!is_alike(&zero, &dim) && !is_alike(&dim, &zero));
    assert!(is_alike(
        &Guest::Content(Content::Uri("a".to_string())),
        &Guest::Content(Content::Uri("a".to_string()))
    ));

    let a = Value::Color3(Color3 {
        r: 0,
        g: single(1.0),
        b: 0,
    });
    let b = Value::Color3(Color3 {
        r: single(-0.0),
        g: single(1.0),
        b: 0,
    });
    assert!(a.matches(&b) && b.matches(&a));
    let c = Value::Bool(true);
    assert!(!a.matches(&c) && !c.matches(&a));
    assert!(a.matches(&a.dup()));
}

#[test]
fn three_hexadecimal_digits_stand_for_six() {
    let short = color3_from_hex::<Fixed>("#1aF").expect("colour");
    let long = color3_from_hex::<Fixed>("11aaff").expect("colour");
    assert_eq!(short, long);
    assert!(color3_from_hex::<Fixed>("#12345").is_err());
    assert!(color3_from_hex::<Fixed>("xyz").is_err());
}

#[test]
fn what_is_no_hexadecimal_digit_makes_no_colour() {
    let refused = |hex: &str| color3_from_hex::<Fixed>(hex).unwrap_err().message;
    let digits = "Color3.fromHex expects hexadecimal digits, got ";
    for hex in ["+F+F+F", "#+F+F+F", "-1-1-1", "a\u{e9}", "a\u{e9}bcd", "\u{20ac}", "0\u{20ac}ff"] {
        assert_eq!(refused(hex), format!("{digits}{hex:?}"));
    }
    assert_eq!(
        refused("\u{e9}\u{e9}"),
        "Color3.fromHex expects \"#RGB\" or \"#RRGGBB\", got \"\u{e9}\u{e9}\""
    );
}

#[test]
fn arithmetic_on_values_is_componentwise() {
    let whole = |s: f64, o: i32| UDim {
        scale: single(s as f32),
        offset: o,
    };
    let a = UDim2 {
        x: whole(0.5, 10),
        y: whole(0.25, 20),
    };
    let sum = udim2_plus::<Fixed>(a, &Guest::UDim2(a)).expect("sum");
    assert_eq!((sum.x.offset, sum.y.offset), (20, 40));
    assert_eq!(f32::from_bits(sum.x.scale), 1.0);
    assert!(udim2_plus::<Fixed>(a, &num(3.0)).is_err());
    let made = udim2_new(&vec![num(0.5), num(10.0), num(0.25), num(20.9)]);
    assert_eq!(made, a);
    let twice = vector2_times::<Fixed>(
        Vector2 {
            x: single(2.0),
            y: single(-3.0),
        },
        &num(2.0),
    )
    .expect("product");
    assert_eq!((f32::from_bits(twice.x), f32::from_bits(twice.y)), (4.0, -6.0));
    let v = || {
        Guest::Vector2(Vector2 {
            x: single(2.0),
            y: single(-3.0),
        })
    };
    assert_eq!(vector2_product::<Fixed>(&v(), &num(2.0)).expect("product"), twice);
    assert_eq!(vector2_product::<Fixed>(&num(2.0), &v()).expect("product"), twice);
    assert_eq!(
        vector2_product::<Fixed>(&v(), &v()).unwrap_err().message,
        "a Vector2 can be multiplied by a number"
    );
    let rect = Rect {
        min: Vector2 {
            x: single(10.0),
            y: 0,
        },
        max: Vector2 {
            x: single(40.0),
            y: 0,
        },
    };
    assert_eq!(f32::from_bits(rect_width::<Fixed>(rect)), 30.0);
}

#[test]
fn fixed_point_is_exact_on_what_it_holds() {
    assert_eq!(worth(fixed(1.5).plus(fixed(2.25))), 3.75);
    assert_eq!(worth(fixed(1.5).times(fixed(-2.5))), -3.75);
    assert_eq!(worth(fixed(1.0).over(fixed(4.0))), 0.25);
    assert_eq!(fixed(1.0).over(fixed(0.0)), Fixed::highest());
    assert_eq!(Fixed::highest().plus(fixed(1.0)), Fixed::highest());
    assert_eq!(worth(Fixed::from_single(single(-7.75))), -7.75);
    assert_eq!(worth(Fixed::from_double(0.375f64.to_bits())), 0.375);
    assert_eq!(fixed(-7.75).to_single(), single(-7.75));
    assert_eq!(fixed(-7.75).to_i32(), -7);
    assert_eq!(worth(fixed(-7.75).floor()), -8.0);
    assert_eq!(fixed(254.5).to_byte(), 255);
    assert_eq!(fixed(300.0).to_byte(), 255);
    assert_eq!(fixed(-3.0).to_byte(), 0);
    assert_eq!(worth(clamp(fixed(5.0), fixed(0.0), fixed(3.0))), 3.0);
    assert_eq!(fixed(0.5).spell(), "32768/65536");
}

#[test]
fn ranking_keeps_the_order_of_equals() {
    let mut list: Vec<(i32, &str)> = Vec::new();
    for (rank, item) in [(2, "a"), (1, "b"), (2, "c"), (1, "d"), (-5, "e")] {
        rank_in(&mut list, rank, item);
    }
    let order: Vec<&str> = list.iter().map(|x| x.1).collect();
    assert_eq!(order, vec!["e", "b", "d", "a", "c"]);
}

/// A root with a frame of a size at a place in it.
fn scene() -> (World, Catalog, usize) {
    let catalog = Catalog::load();
    let mut world = World::new();
    let root = new(&mut world, "ScreenGui", "Root");
    (world, catalog, root)
}

fn sized(w: i32, h: i32) -> Guest {
    placed(w, h)
}

fn placed(x: i32, y: i32) -> Guest {
    Guest::UDim2(UDim2 {
        x: UDim { scale: 0, offset: x },
        y: UDim { scale: 0, offset: y },
    })
}

fn add(
    world: &mut World,
    catalog: &Catalog,
    parent: usize,
    class: &str,
    size: (i32, i32),
    at: (i32, i32),
) -> usize {
    let id = under(world, class, class, parent);
    set(world, catalog, id, "Size", sized(size.0, size.1));
    set(world, catalog, id, "Position", placed(at.0, at.1));
    id
}

fn surface() -> Box2<Fixed> {
    Box2 {
        x: fixed(0.0),
        y: fixed(0.0),
        w: fixed(200.0),
        h: fixed(100.0),
    }
}

fn solve(world: &World, catalog: &Catalog, root: usize) -> Vec<(usize, [f64; 4])> {
    let layout = Layout {
        dom: &world.dom,
        catalog,
        ruler: &NoFonts,
    };
    layout
        .solve_layout(root, surface())
        .iter()
        .map(|i| {
            let r = i.rect;
            (i.id, [worth(r.x), worth(r.y), worth(r.w), worth(r.h)])
        })
        .collect()
}

#[test]
fn only_what_is_visible_under_the_root_is_laid_out() {
    let (mut world, catalog, root) = scene();
    let a = add(&mut world, &catalog, root, "Frame", (50, 20), (10, 5));
    let b = add(&mut world, &catalog, a, "Frame", (5, 5), (1, 2));
    let c = add(&mut world, &catalog, root, "Frame", (5, 5), (0, 0));
    let elsewhere = new(&mut world, "Frame", "Elsewhere");
    set(&mut world, &catalog, c, "Visible", Guest::Bool(false));
    add(&mut world, &catalog, c, "Frame", (5, 5), (0, 0));
    let solved = solve(&world, &catalog, root);
    assert_eq!(
        solved,
        vec![(a, [10.0, 5.0, 50.0, 20.0]), (b, [11.0, 7.0, 5.0, 5.0])]
    );
    assert!(solved.iter().all(|s| s.0 != elsewhere));
    let layout = Layout {
        dom: &world.dom,
        catalog: &catalog,
        ruler: &NoFonts,
    };
    let drawn = layout.display_list(root, fixed(200.0), fixed(100.0));
    assert_eq!(drawn.iter().map(|p| p.id).collect::<Vec<_>>(), vec![a, b]);
}

#[test]
fn a_list_places_by_order_and_not_by_position() {
    let (mut world, catalog, root) = scene();
    let panel = add(&mut world, &catalog, root, "Frame", (100, 100), (0, 0));
    let layout = under(&mut world, "UIListLayout", "L", panel);
    let padding = Guest::UDim(UDim { scale: 0, offset: 3 });
    set(&mut world, &catalog, layout, "Padding", padding);
    let first = add(&mut world, &catalog, panel, "Frame", (10, 20), (77, 88));
    let second = add(&mut world, &catalog, panel, "Frame", (10, 20), (0, 0));
    set(&mut world, &catalog, first, "LayoutOrder", num(2.0));
    let solved = solve(&world, &catalog, root);
    assert_eq!(
        solved[1..],
        [
            (second, [0.0, 0.0, 10.0, 20.0]),
            (first, [0.0, 23.0, 10.0, 20.0])
        ]
    );
    set(&mut world, &catalog, first, "Position", placed(1, 1));
    assert_eq!(solve(&world, &catalog, root), solved);
}

#[test]
fn what_measures_nothing_keeps_its_size_and_is_told_of_once() {
    let (mut world, catalog, root) = scene();
    let auto = add(&mut world, &catalog, root, "Frame", (30, 40), (0, 0));
    set(&mut world, &catalog, auto, "AutomaticSize", num(1.0));
    let scaled = under(&mut world, "Frame", "Scaled", auto);
    let full = Guest::UDim2(UDim2 {
        x: UDim {
            scale: single(1.0),
            offset: 0,
        },
        y: UDim {
            scale: single(1.0),
            offset: 0,
        },
    });
    set(&mut world, &catalog, scaled, "Size", full);
    let layout = Layout {
        dom: &world.dom,
        catalog: &catalog,
        ruler: &NoFonts,
    };
    let items = layout.solve_layout(root, surface());
    assert_eq!(worth(items[0].rect.w), 30.0);
    let notes = layout.reports(&items);
    assert_eq!(notes.len(), 1);
    assert_eq!(notes[0].key, format!("unmeasurable_x_{auto}"));
    let mut said = Names::new();
    let line = note_once_layout(&mut said, &notes[0]).expect("a line");
    assert_eq!(
        line,
        "[dew] Frame: AutomaticSize.X measured nothing -- every descendant is sized by scale on X, \
         so it kept its authored width"
    );
    assert!(note_once_layout(&mut said, &notes[0]).is_none());
    assert!(layout.report_auto(&items[1]).is_empty());
}

#[test]
fn geometry_is_noted_and_layers_are_drawn_in_order() {
    let (mut world, catalog, root) = scene();
    let a = add(&mut world, &catalog, root, "Frame", (50, 20), (10, 5));
    world.dom.take_dirty();
    commit_geometry(
        &mut world.dom,
        &catalog,
        &NoFonts,
        root,
        fixed(200.0),
        fixed(100.0),
    );
    assert!(!world.dom.take_dirty());
    match world.dom.property(&catalog, a, "AbsoluteSize") {
        Some(Value::Vector2(v)) => {
            assert_eq!((f32::from_bits(v.x), f32::from_bits(v.y)), (50.0, 20.0))
        }
        other => panic!("{other:?}"),
    }

    let (mut world, catalog, root) = scene();
    let a = add(&mut world, &catalog, root, "Frame", (50, 20), (0, 0));
    let b = add(&mut world, &catalog, a, "Frame", (5, 5), (0, 0));
    let c = add(&mut world, &catalog, root, "Frame", (50, 20), (0, 0));
    for (id, name) in [(a, "A"), (b, "B"), (c, "C")] {
        set(&mut world, &catalog, id, "Name", Guest::Text(name.to_string()));
    }
    set(&mut world, &catalog, a, "ZIndex", num(2.0));
    let frame = frame_of(
        &mut world.dom,
        &catalog,
        &NoFonts,
        root,
        fixed(200.0),
        fixed(100.0),
    );
    let order: Vec<&str> = frame.nodes.iter().map(|n| n.name.as_str()).collect();
    assert_eq!(order, vec!["B", "C", "A"]);
    let numbers: Vec<u64> = frame.nodes.iter().map(|n| n.id).collect();
    assert_eq!(numbers, vec![1, 2, 3]);
    assert!(!frame.focused);
}

fn on(root: usize) -> Surface<Fixed> {
    Surface {
        root,
        width: fixed(200.0),
        height: fixed(100.0),
    }
}

fn at(x: f64, y: f64) -> Point<Fixed> {
    Point {
        x: fixed(x),
        y: fixed(y),
    }
}

#[test]
fn the_topmost_that_catches_is_hit_and_what_is_cut_off_is_not() {
    let (mut world, catalog, root) = scene();
    let panel = add(&mut world, &catalog, root, "Frame", (100, 50), (0, 0));
    set(&mut world, &catalog, panel, "ClipsDescendants", Guest::Bool(true));
    let low = add(&mut world, &catalog, panel, "TextButton", (100, 100), (0, 0));
    let high = add(&mut world, &catalog, root, "TextButton", (20, 20), (0, 0));
    let scene = Layout {
        dom: &world.dom,
        catalog: &catalog,
        ruler: &NoFonts,
    };
    assert_eq!(scene.hit(on(root), at(10.0, 10.0)), Some(high));
    assert_eq!(scene.hit(on(root), at(50.0, 25.0)), Some(low));
    assert_eq!(scene.hit(on(root), at(50.0, 75.0)), None);
    assert_eq!(scene.hit(on(root), at(150.0, 25.0)), None);
}

#[test]
fn a_click_is_a_press_and_a_release_on_one_element() {
    let (mut world, catalog, root) = scene();
    let button = add(&mut world, &catalog, root, "TextButton", (50, 50), (0, 0));
    listen(&mut world, button, Kind::MouseButton1Click, 1);
    listen(&mut world, button, Kind::MouseLeave, 2);
    let mut pointer: Pointer<Fixed> = Pointer::new();
    let press = |pointer: &mut Pointer<Fixed>, world: &mut World, down: bool, x: f64| {
        let agenda = {
            let scene = Layout {
                dom: &world.dom,
                catalog: &catalog,
                ruler: &NoFonts,
            };
            if down {
                pointer.down(&scene, world.focus, on(root), Button::Left, at(x, 10.0))
            } else {
                pointer.up(&scene, on(root), Button::Left, at(x, 10.0))
            }
        };
        functions(&perform(world, agenda))
    };
    press(&mut pointer, &mut world, true, 10.0);
    assert_eq!(press(&mut pointer, &mut world, false, 20.0), vec![1]);
    press(&mut pointer, &mut world, true, 10.0);
    assert!(!press(&mut pointer, &mut world, false, 90.0).contains(&1));
    press(&mut pointer, &mut world, true, 90.0);
    assert!(!press(&mut pointer, &mut world, false, 10.0).contains(&1));
}

#[test]
fn looking_again_tells_nobody_and_the_gone_are_not_left() {
    let (mut world, catalog, root) = scene();
    let button = add(&mut world, &catalog, root, "TextButton", (50, 50), (0, 0));
    listen(&mut world, button, Kind::MouseEnter, 1);
    listen(&mut world, button, Kind::MouseLeave, 2);
    let mut pointer: Pointer<Fixed> = Pointer::new();
    let look = |pointer: &mut Pointer<Fixed>, world: &mut World, first: bool| {
        let agenda = {
            let scene = Layout {
                dom: &world.dom,
                catalog: &catalog,
                ruler: &NoFonts,
            };
            if first {
                pointer.moved(&scene, on(root), at(10.0, 10.0))
            } else {
                pointer.refresh(&scene, on(root))
            }
        };
        functions(&perform(world, agenda))
    };
    assert!(look(&mut pointer, &mut world, false).is_empty());
    assert_eq!(look(&mut pointer, &mut world, true), vec![1]);
    assert!(look(&mut pointer, &mut world, false).is_empty());
    perform(&mut world, destroy(button));
    assert!(look(&mut pointer, &mut world, false).is_empty());
    assert_eq!(pointer.hover, None);
}

#[test]
fn the_wheel_repaints_what_it_scrolls_and_nothing_else() {
    let (mut world, catalog, root) = scene();
    let frame = add(&mut world, &catalog, root, "ScrollingFrame", (100, 50), (0, 0));
    set(&mut world, &catalog, frame, "CanvasSize", sized(0, 150));
    world.dom.take_dirty();
    let mut pointer: Pointer<Fixed> = Pointer::new();
    let turn = |pointer: &mut Pointer<Fixed>, world: &mut World, delta: f64, now: u64| {
        let agenda = pointer.wheel(
            world,
            &catalog,
            &NoFonts,
            on(root),
            at(50.0, 25.0),
            fixed(delta),
            now,
        );
        perform(world, agenda);
        world.dom.take_dirty()
    };
    assert!(turn(&mut pointer, &mut world, -1.0, 0));
    match world.dom.assigned(frame, "CanvasPosition") {
        Some(Value::Vector2(v)) => assert_eq!(f32::from_bits(v.y), 40.0),
        other => panic!("{other:?}"),
    }
    assert_eq!(worth(get_scroll_velocity::<Fixed>(&world, frame, 0).y), 400.0);
    assert_eq!(
        worth(get_scroll_velocity::<Fixed>(&world, frame, 125_000_000).y),
        200.0
    );
    assert_eq!(
        worth(get_scroll_velocity::<Fixed>(&world, frame, 250_000_000).y),
        0.0
    );
    assert!(turn(&mut pointer, &mut world, 9.0, 1));
    assert!(!turn(&mut pointer, &mut world, 9.0, 2), "already at the top");
    world.set_scroll_velocity(
        frame,
        Impulse {
            x: single(8.0),
            y: 0,
            at: 0,
        },
    );
    assert_eq!(worth(get_scroll_velocity::<Fixed>(&world, frame, 0).x), 8.0);
    world.reset_scroll_velocity(frame);
    assert_eq!(worth(get_scroll_velocity::<Fixed>(&world, frame, 0).x), 0.0);
}
