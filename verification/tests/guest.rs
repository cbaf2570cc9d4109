//! Guests in a script engine, driving the library through the same objects that a host gives them.

use dew_host::members;
use dew_host::agenda::{Agenda, Arg, Call, InputObject, Progress};
use dew_host::collection::{Service, add_tag, get_service, get_tagged, get_tags, has_tag, instance_added_signal, instance_removed_signal, remove_tag};
use dew_host::connection::Signal;
use dew_host::content::{EitherEnum, content_from_uri, content_text, font_new, font_text, is_bold, member_font_new, member_font_text, source_type, style_item, uri_of, weight_item};
use dew_host::enums::{Indexed, enum_index, enum_member, enum_named, get_enum_items, item_text, same_item};
use dew_host::fault::Fault;
use dew_host::flags::set_enabled_flags;
use dew_host::gallery::{RawNode, RawScene, RawSurface, RawVariant, Scene, decode_scene};
use dew_host::guest::{Guest, Number, Shown, content_from};
use dew_host::handles::Handles;
use dew_host::input::{Button, Point, Pointer, Surface, get_scroll_velocity};
use dew_host::instance::{Reading, assign, index, text_of};
use dew_host::layout::{Box2, Layout, Ruler};
use dew_host::members::{Member, Method, Query, create, find_ancestor, find_child, get_children, get_descendants, instance_arg, is_a, is_ancestor_of, is_descendant_of, property_signal};
use dew_host::operations::{capture_focus, clear_all_children, destroy, release_focus};
use dew_host::reflection::{Catalog, EnumItem};
use dew_host::render::{Node, Rgb, Scale, frame_of};
use dew_host::scalar::Scalar;
use dew_host::value::{Color3, ColorKey, Content, Font, NumberKey, Rect, UDim, UDim2, Value as Stored, Vector2};
use dew_host::vocabulary::{First, color3_from_bytes, color3_from_hex, color3_from_hsv, color3_from_rgb, color3_new, color3_text, color_key_new, color_key_text, color_sequence_new, is_alike, number_key_new, number_key_text, number_sequence_new, rect_height, rect_new, rect_text, rect_width, udim2_from_offset, udim2_from_scale, udim2_minus, udim2_new, udim2_plus, udim2_text, udim_minus, udim_new, udim_plus, udim_text, vector2_minus, vector2_new, vector2_one, vector2_plus, vector2_text, vector2_product, vector2_zero};
use dew_host::world::World;
use mlua::{AnyUserData, Error, FromLuaMulti, Function, IntoLua, Lua, MetaMethod, MultiValue, Table, UserData, UserDataFields, UserDataMethods, Value};
use std::collections::HashMap;
use std::sync::{Arc, Mutex};
use std::time::Instant;

/// A single. Floating point stays outside the library, which sees it as one more arithmetic.
#[derive(Clone, Copy, Debug, PartialEq)]
struct Single(f32);

impl Scalar for Single {
    fn sum(self, other: Self) -> Self {
        self.plus(other)
    }

    fn difference(self, other: Self) -> Self {
        self.minus(other)
    }

    fn product(self, other: Self) -> Self {
        self.times(other)
    }

    fn quotient(self, other: Self) -> Self {
        self.over(other)
    }

    fn larger(self, other: Self) -> Self {
        self.most(other)
    }

    fn smaller(self, other: Self) -> Self {
        self.least(other)
    }

    fn less(self, other: Self) -> bool {
        self.below(other)
    }

    fn less_or_equal(self, other: Self) -> bool {
        self.at_most(other)
    }

    fn equal(self, other: Self) -> bool {
        self.same(other)
    }

    fn of_single(bits: u32) -> Self {
        Self::from_single(bits)
    }

    fn of_double(bits: u64) -> Self {
        Self::from_double(bits)
    }

    fn of_int(n: i128) -> Self {
        Self::from_int(n)
    }

    fn bottom() -> Self {
        Self::lowest()
    }

    fn top() -> Self {
        Self::highest()
    }

    fn whole(self) -> i32 {
        self.to_i32()
    }

    fn byte(self) -> u8 {
        self.to_byte()
    }

    fn single(self) -> u32 {
        self.to_single()
    }

    fn floored(self) -> Self {
        self.floor()
    }

    fn long(self) -> i64 {
        self.to_long()
    }

    fn spelled(self) -> String {
        self.spell()
    }

    fn plus(self, other: Self) -> Self {
        Single(self.0 + other.0)
    }

    fn minus(self, other: Self) -> Self {
        Single(self.0 - other.0)
    }

    fn times(self, other: Self) -> Self {
        Single(self.0 * other.0)
    }

    fn over(self, other: Self) -> Self {
        Single(self.0 / other.0)
    }

    fn most(self, other: Self) -> Self {
        Single(self.0.max(other.0))
    }

    fn least(self, other: Self) -> Self {
        Single(self.0.min(other.0))
    }

    fn below(self, other: Self) -> bool {
        self.0 < other.0
    }

    fn at_most(self, other: Self) -> bool {
        self.0 <= other.0
    }

    fn same(self, other: Self) -> bool {
        self.0 == other.0
    }

    fn from_single(bits: u32) -> Self {
        Single(f32::from_bits(bits))
    }

    fn from_double(bits: u64) -> Self {
        Single(f64::from_bits(bits) as f32)
    }

    fn from_int(n: i128) -> Self {
        Single(n as f32)
    }

    fn lowest() -> Self {
        Single(f32::NEG_INFINITY)
    }

    fn highest() -> Self {
        Single(f32::INFINITY)
    }

    fn to_i32(self) -> i32 {
        self.0 as i32
    }

    fn to_byte(self) -> u8 {
        self.0.round() as u8
    }

    fn to_single(self) -> u32 {
        self.0.to_bits()
    }

    fn floor(self) -> Self {
        Single(self.0.floor())
    }

    fn to_long(self) -> i64 {
        self.0 as i64
    }

    fn spell(self) -> String {
        format!("{}", self.0)
    }
}

/// Who measures text. Nothing comes back where a text cannot be measured.
pub trait Face: Send + Sync {
    fn measure(&self, text: &str, size: f32) -> Option<(f32, f32)>;

    fn measure_wrapped(&self, text: &str, size: f32, width: f32) -> Option<(f32, f32)>;
}

/// The face of the host, if it has one.
#[derive(Clone, Default)]
struct Fonts(Option<Arc<dyn Face>>);

impl Ruler<Single> for Fonts {
    fn extent(&self, text: String, size: Single, width: Option<Single>) -> Option<(Single, Single)> {
        self.measure(&text, size, width)
    }

    fn measure(&self, text: &str, size: Single, width: Option<Single>) -> Option<(Single, Single)> {
        let face = self.0.as_ref()?;
        let (w, h) = match width {
            Some(width) => face.measure_wrapped(text, size.0, width.0)?,
            None => face.measure(text, size.0)?,
        };
        Some((Single(w), Single(h)))
    }
}

/// What a guest's machine holds besides the machine itself.
struct Machine {
    world: World,
    catalog: Catalog,
    fonts: Fonts,
    handles: Handles,
    objects: HashMap<u64, AnyUserData>,
    functions: HashMap<u64, (Function, usize)>,
    next: u64,
    started: Instant,
}

type SharedMachine = Arc<Mutex<Machine>>;

impl Machine {
    fn new(catalog: Catalog) -> Machine {
        Machine {
            world: World::new(),
            catalog,
            fonts: Fonts::default(),
            handles: Handles::new(),
            objects: HashMap::new(),
            functions: HashMap::new(),
            next: 0,
            started: Instant::now(),
        }
    }

    /// Nanoseconds since the machine started.
    fn now(&self) -> u64 {
        self.started.elapsed().as_nanos() as u64
    }

    /// A number that was never used.
    fn fresh(&mut self) -> u64 {
        self.next += 1;
        self.next
    }

    /// Keep the function of a connection, and drop those of connections that are gone.
    fn keep(&mut self, number: u64, function: Function, conn: usize) {
        let world = &self.world;
        self.functions.retain(|_, (_, c)| world.dom.is_connected(*c));
        self.functions.insert(number, (function, conn));
    }
}

fn shared(catalog: Catalog) -> SharedMachine {
    Arc::new(Mutex::new(Machine::new(catalog)))
}

fn refusal(fault: Fault) -> Error {
    Error::runtime(fault.message)
}

/// The handle of an instance, and the same one every time.
fn handle(lua: &Lua, machine: &SharedMachine, id: usize) -> mlua::Result<AnyUserData> {
    {
        let mut guard = machine.lock().expect("machine");
        let m = &mut *guard;
        for gone in m.handles.prune(&mut m.world.dom) {
            m.objects.remove(&gone);
        }
        if let Some(number) = m.handles.look(id) {
            if let Some(object) = m.objects.get(&number) {
                return Ok(object.clone());
            }
        }
    }
    let object = lua.create_userdata(InstanceRef {
        machine: machine.clone(),
        id,
    })?;
    let mut guard = machine.lock().expect("machine");
    let number = guard.fresh();
    guard.handles.remember(id, number);
    guard.objects.insert(number, object.clone());
    Ok(object)
}

/// Perform an operation to its end. Nothing is locked while the guest runs, and what a handler
/// raises is reported and stops nothing.
fn perform(lua: &Lua, machine: &SharedMachine, agenda: Agenda) -> mlua::Result<()> {
    let mut agenda = agenda;
    loop {
        let progress = agenda.step(&mut machine.lock().expect("machine").world);
        match progress {
            Progress::Done => return Ok(()),
            Progress::Quiet => {}
            Progress::Refused(fault) => return Err(refusal(fault)),
            Progress::Call(call) => deliver(lua, machine, call)?,
        }
    }
}

fn deliver(lua: &Lua, machine: &SharedMachine, call: Call) -> mlua::Result<()> {
    let function = {
        let guard = machine.lock().expect("machine");
        guard.functions.get(&call.function).map(|(f, _)| f.clone())
    };
    let Some(function) = function else {
        return Ok(());
    };
    let args = arguments(lua, machine, &call.arg)?;
    if let Err(error) = function.call::<()>(MultiValue::from_iter(args)) {
        println!("[dew] a {} handler errored: {error}", call.kind.label());
    }
    Ok(())
}

fn arguments(lua: &Lua, machine: &SharedMachine, arg: &Arg) -> mlua::Result<Vec<Value>> {
    Ok(match arg {
        Arg::Nothing => Vec::new(),
        Arg::Name(name) => vec![lua.create_string(name)?.into_lua(lua)?],
        Arg::Instance(id) => vec![handle(lua, machine, *id)?.into_lua(lua)?],
        Arg::Bool(b) => vec![Value::Boolean(*b)],
        Arg::Position(x, y) => vec![
            f32::from_bits(*x).into_lua(lua)?,
            f32::from_bits(*y).into_lua(lua)?,
        ],
        Arg::Input(object) => vec![LuaInput::new(machine, *object).into_lua(lua)?],
        Arg::Activation(object) => vec![
            LuaInput::new(machine, *object).into_lua(lua)?,
            1.into_lua(lua)?,
        ],
    })
}

fn number(value: f64, integer: bool) -> Number {
    Number {
        integer,
        wide: value.to_bits(),
        narrow: (value as f32).to_bits(),
        shown: format!("{value}"),
    }
}

/// What the guest calls a value that the library has no word for.
fn foreign(value: &Value) -> &'static str {
    match value {
        Value::LightUserData(_) => "lightuserdata",
        Value::Vector(_) => "vector",
        Value::Table(_) => "table",
        Value::Function(_) => "function",
        Value::Thread(_) => "thread",
        Value::Buffer(_) => "buffer",
        Value::Error(_) => "error",
        _ => "other",
    }
}

/// A value of the guest in the library's terms.
fn guest_of(value: &Value) -> Guest {
    match value {
        Value::Nil => Guest::Nil,
        Value::Boolean(b) => Guest::Bool(*b),
        Value::Integer(i) => Guest::Number(number(*i as f64, true)),
        Value::Number(n) => Guest::Number(number(*n, false)),
        Value::String(s) => Guest::Text(s.to_string_lossy().to_string()),
        Value::UserData(ud) => {
            if let Ok(v) = ud.borrow::<InstanceRef>() {
                Guest::Instance(v.id)
            } else if let Ok(v) = ud.borrow::<LuaUDim>() {
                Guest::UDim(v.0)
            } else if let Ok(v) = ud.borrow::<LuaUDim2>() {
                Guest::UDim2(v.0)
            } else if let Ok(v) = ud.borrow::<LuaVector2>() {
                Guest::Vector2(v.0)
            } else if let Ok(v) = ud.borrow::<LuaColor3>() {
                Guest::Color3(v.0)
            } else if let Ok(v) = ud.borrow::<LuaRect>() {
                Guest::Rect(v.0)
            } else if let Ok(v) = ud.borrow::<LuaContent>() {
                Guest::Content(v.0.dup())
            } else if let Ok(v) = ud.borrow::<LuaFont>() {
                Guest::Font(v.font.dup())
            } else if let Ok(v) = ud.borrow::<LuaColorKey>() {
                Guest::ColorKey(v.0)
            } else if let Ok(v) = ud.borrow::<LuaNumberKey>() {
                Guest::NumberKey(v.0)
            } else if let Ok(v) = ud.borrow::<LuaColorSequence>() {
                Guest::ColorSequence(v.0.clone())
            } else if let Ok(v) = ud.borrow::<LuaNumberSequence>() {
                Guest::NumberSequence(v.0.clone())
            } else if let Ok(v) = ud.borrow::<LuaEnumItem>() {
                Guest::Item(v.item())
            } else {
                Guest::Foreign("userdata".to_string())
            }
        }
        other => Guest::Foreign(foreign(other).to_string()),
    }
}

/// A value that the library shows, for the guest to read.
fn shown(lua: &Lua, machine: &SharedMachine, value: Shown) -> mlua::Result<Value> {
    let value = match value {
        Shown::Item(item) => return LuaEnumItem::of(machine, item).into_lua(lua),
        Shown::Value(value) => value,
    };
    match value {
        Stored::Bool(v) => Ok(Value::Boolean(v)),
        Stored::Text(v) => lua.create_string(&v)?.into_lua(lua),
        Stored::Float32(bits) => Ok(Value::Number(f32::from_bits(bits) as f64)),
        Stored::Float64(bits) => Ok(Value::Number(f64::from_bits(bits))),
        Stored::Int32(v) => Ok(Value::Integer(v as i64)),
        Stored::Int64(v) => Ok(Value::Integer(v)),
        Stored::UDim(v) => LuaUDim(v).into_lua(lua),
        Stored::UDim2(v) => LuaUDim2(v).into_lua(lua),
        Stored::Vector2(v) => LuaVector2(v).into_lua(lua),
        Stored::Color3(v) => LuaColor3(v).into_lua(lua),
        Stored::Color3uint8(r, g, b) => {
            let c: Color3 = color3_from_bytes::<Single>(r, g, b);
            LuaColor3(c).into_lua(lua)
        }
        Stored::Rect(v) => LuaRect(v).into_lua(lua),
        Stored::Content(v) => LuaContent(v).into_lua(lua),
        Stored::ContentId(v) => lua.create_string(&v)?.into_lua(lua),
        Stored::Font(font) => LuaFont {
            machine: machine.clone(),
            font,
            members: false,
        }
        .into_lua(lua),
        Stored::ColorSequence(v) => LuaColorSequence(v).into_lua(lua),
        Stored::NumberSequence(v) => LuaNumberSequence(v).into_lua(lua),
        Stored::Enum(raw) => Ok(Value::Integer(raw as i64)),
        Stored::Other(_) => Ok(Value::Nil),
    }
}

/// A handle onto an instance. `typeof` reports "Instance".
#[derive(Clone)]
struct InstanceRef {
    machine: SharedMachine,
    id: usize,
}

impl InstanceRef {
    /// The class of the instance, while it is there.
    fn class_name(&self) -> Option<String> {
        self.machine.lock().expect("machine").world.dom.class_of(self.id)
    }

    fn with<T>(&self, f: impl FnOnce(&World, &Catalog) -> T) -> T {
        let guard = self.machine.lock().expect("machine");
        f(&guard.world, &guard.catalog)
    }
}

impl UserData for InstanceRef {
    fn add_fields<F: UserDataFields<Self>>(fields: &mut F) {
        fields.add_meta_field(MetaMethod::Type, "Instance");
    }

    fn add_methods<M: UserDataMethods<Self>>(methods: &mut M) {
        methods.add_meta_method(MetaMethod::ToString, |_, this, ()| {
            Ok(this.with(|w, _| text_of(&w.dom, this.id)))
        });

        methods.add_meta_method(MetaMethod::Eq, |_, this, other: Value| {
            let Value::UserData(ud) = other else {
                return Ok(false);
            };
            let Ok(other) = ud.borrow::<InstanceRef>() else {
                return Ok(false);
            };
            Ok(Arc::ptr_eq(&this.machine, &other.machine) && this.id == other.id)
        });

        methods.add_meta_method(MetaMethod::Index, |lua, this, key: String| {
            let reading = this
                .with(|w, c| index(&w.dom, c, this.id, &key))
                .map_err(refusal)?;
            match reading {
                Reading::Nil => Ok(Value::Nil),
                Reading::Text(t) => lua.create_string(&t)?.into_lua(lua),
                Reading::Instance(id) => handle(lua, &this.machine, id)?.into_lua(lua),
                Reading::Shown(s) => shown(lua, &this.machine, s),
                Reading::Member(Member::Event(kind)) => {
                    LuaSignal::of(&this.machine, Signal { id: this.id, kind }).into_lua(lua)
                }
                Reading::Member(Member::Method(method)) => {
                    bound(lua, this.clone(), method)?.into_lua(lua)
                }
            }
        });

        methods.add_meta_method(
            MetaMethod::NewIndex,
            |lua, this, (key, value): (String, Value)| {
                let value = guest_of(&value);
                let agenda = {
                    let mut guard = this.machine.lock().expect("machine");
                    let m = &mut *guard;
                    assign(&mut m.world, &m.catalog, this.id, &key, &value).map_err(refusal)?
                };
                perform(lua, &this.machine, agenda)
            },
        );
    }
}

fn table_of(lua: &Lua, machine: &SharedMachine, ids: Vec<usize>) -> mlua::Result<Table> {
    let out = lua.create_table()?;
    for (i, id) in ids.into_iter().enumerate() {
        out.set(i + 1, handle(lua, machine, id)?)?;
    }
    Ok(out)
}

fn found(lua: &Lua, machine: &SharedMachine, id: Option<usize>) -> mlua::Result<Value> {
    match id {
        Some(id) => handle(lua, machine, id)?.into_lua(lua),
        None => Ok(Value::Nil),
    }
}

/// A method, already bound to its instance.
fn bound(lua: &Lua, this: InstanceRef, method: Method) -> mlua::Result<Function> {
    match method {
        Method::GetChildren => lua.create_function(move |lua, _: Value| {
            let ids = this
                .with(|w, _| get_children(&w.dom, this.id))
                .map_err(refusal)?;
            table_of(lua, &this.machine, ids)
        }),
        Method::GetDescendants => lua.create_function(move |lua, _: Value| {
            let ids = this
                .with(|w, _| get_descendants(&w.dom, this.id))
                .map_err(refusal)?;
            table_of(lua, &this.machine, ids)
        }),
        Method::FindFirstChild => lua.create_function(
            move |lua, (_, name, recursive): (Value, String, Option<bool>)| {
                let deep = recursive.unwrap_or(false);
                let hit = this
                    .with(|w, c| find_child(&w.dom, c, this.id, Query::Named(&name), deep))
                    .map_err(refusal)?;
                found(lua, &this.machine, hit)
            },
        ),
        Method::FindFirstChildOfClass => {
            lua.create_function(move |lua, (_, class): (Value, String)| {
                let hit = this
                    .with(|w, c| find_child(&w.dom, c, this.id, Query::OfClass(&class), false))
                    .map_err(refusal)?;
                found(lua, &this.machine, hit)
            })
        }
        Method::FindFirstChildWhichIsA => lua.create_function(
            move |lua, (_, class, recursive): (Value, String, Option<bool>)| {
                let deep = recursive.unwrap_or(false);
                let hit = this
                    .with(|w, c| find_child(&w.dom, c, this.id, Query::WhichIsA(&class), deep))
                    .map_err(refusal)?;
                found(lua, &this.machine, hit)
            },
        ),
        Method::FindFirstDescendant => {
            lua.create_function(move |lua, (_, name): (Value, String)| {
                let hit = this
                    .with(|w, c| find_child(&w.dom, c, this.id, Query::Named(&name), true))
                    .map_err(refusal)?;
                found(lua, &this.machine, hit)
            })
        }
        Method::FindFirstAncestor => lua.create_function(move |lua, (_, name): (Value, String)| {
            let hit = this
                .with(|w, c| find_ancestor(&w.dom, c, this.id, Query::Named(&name)))
                .map_err(refusal)?;
            found(lua, &this.machine, hit)
        }),
        Method::FindFirstAncestorOfClass => {
            lua.create_function(move |lua, (_, class): (Value, String)| {
                let hit = this
                    .with(|w, c| find_ancestor(&w.dom, c, this.id, Query::OfClass(&class)))
                    .map_err(refusal)?;
                found(lua, &this.machine, hit)
            })
        }
        Method::FindFirstAncestorWhichIsA => {
            lua.create_function(move |lua, (_, class): (Value, String)| {
                let hit = this
                    .with(|w, c| find_ancestor(&w.dom, c, this.id, Query::WhichIsA(&class)))
                    .map_err(refusal)?;
                found(lua, &this.machine, hit)
            })
        }
        Method::IsA => lua.create_function(move |_, (_, class): (Value, String)| {
            this.with(|w, c| is_a(&w.dom, c, this.id, &class))
                .map_err(refusal)
        }),
        Method::IsAncestorOf => lua.create_function(move |_, (_, other): (Value, Value)| {
            let id = instance_arg(&guest_of(&other), "IsAncestorOf").map_err(refusal)?;
            let near = same_arena(&this, &other);
            this.with(|w, _| is_ancestor_of(&w.dom, this.id, id, near))
                .map_err(refusal)
        }),
        Method::IsDescendantOf => lua.create_function(move |_, (_, other): (Value, Value)| {
            let id = instance_arg(&guest_of(&other), "IsDescendantOf").map_err(refusal)?;
            let near = same_arena(&this, &other);
            this.with(|w, _| is_descendant_of(&w.dom, this.id, id, near))
                .map_err(refusal)
        }),
        Method::GetPropertyChangedSignal => {
            lua.create_function(move |_, (_, property): (Value, String)| {
                let kind = this
                    .with(|w, c| property_signal(&w.dom, c, this.id, &property))
                    .map_err(refusal)?;
                Ok(LuaSignal::of(&this.machine, Signal { id: this.id, kind }))
            })
        }
        Method::CaptureFocus => lua.create_function(move |lua, _: Value| {
            perform(lua, &this.machine, capture_focus(this.id))
        }),
        Method::ReleaseFocus => lua.create_function(move |lua, _: Value| {
            perform(lua, &this.machine, release_focus(this.id, false))
        }),
        Method::IsFocused => {
            lua.create_function(move |_, _: Value| Ok(this.with(|w, _| w.is_focused(this.id))))
        }
        Method::GetScrollVelocity => lua.create_function(move |_, _: Value| {
            let guard = this.machine.lock().expect("machine");
            let v = get_scroll_velocity::<Single>(&guard.world, this.id, guard.now());
            Ok(LuaVector2(Vector2 {
                x: v.x.0.to_bits(),
                y: v.y.0.to_bits(),
            }))
        }),
        Method::ResetScrollVelocity => lua.create_function(move |_, _: Value| {
            let mut guard = this.machine.lock().expect("machine");
            guard.world.reset_scroll_velocity(this.id);
            Ok(())
        }),
        Method::Destroy => lua.create_function(move |lua, _: Value| {
            perform(lua, &this.machine, destroy(this.id))
        }),
        Method::ClearAllChildren => lua.create_function(move |lua, _: Value| {
            let agenda = this
                .with(|w, _| clear_all_children(&w.dom, this.id))
                .map_err(refusal)?;
            perform(lua, &this.machine, agenda)
        }),
    }
}

fn same_arena(this: &InstanceRef, other: &Value) -> bool {
    let Value::UserData(ud) = other else {
        return false;
    };
    match ud.borrow::<InstanceRef>() {
        Ok(o) => Arc::ptr_eq(&this.machine, &o.machine),
        Err(_) => false,
    }
}

/// `Instance.new`, and the services.
fn install_instances(lua: &Lua, machine: &SharedMachine) -> mlua::Result<()> {
    let instance = lua.create_table()?;
    let shared = machine.clone();
    instance.set(
        "new",
        lua.create_function(move |lua, class: String| {
            let id = {
                let mut guard = shared.lock().expect("machine");
                let m = &mut *guard;
                create(&mut m.world.dom, &m.catalog, &class).map_err(refusal)?
            };
            handle(lua, &shared, id)
        })?,
    )?;
    lua.globals().set("Instance", instance)
}

/// An event. `typeof` reports "RBXScriptSignal".
struct LuaSignal {
    machine: SharedMachine,
    signal: Signal,
}

impl LuaSignal {
    fn of(machine: &SharedMachine, signal: Signal) -> LuaSignal {
        LuaSignal {
            machine: machine.clone(),
            signal,
        }
    }
}

/// A connection. `typeof` reports "RBXScriptConnection".
#[derive(Clone)]
struct LuaConnection {
    machine: SharedMachine,
    conn: usize,
}

impl UserData for LuaSignal {
    fn add_fields<F: UserDataFields<Self>>(fields: &mut F) {
        fields.add_meta_field(MetaMethod::Type, "RBXScriptSignal");
    }

    fn add_methods<M: UserDataMethods<Self>>(methods: &mut M) {
        methods.add_meta_method(MetaMethod::ToString, |_, this, ()| Ok(this.signal.text()));

        methods.add_meta_method(MetaMethod::Eq, |_, this, other: Value| {
            let Value::UserData(ud) = other else {
                return Ok(false);
            };
            let Ok(other) = ud.borrow::<LuaSignal>() else {
                return Ok(false);
            };
            let near = Arc::ptr_eq(&this.machine, &other.machine);
            Ok(this.signal.is_same(&other.signal, near))
        });

        methods.add_method("Connect", |_, this, f: Function| {
            let mut guard = this.machine.lock().expect("machine");
            let number = guard.fresh();
            let conn = this
                .signal
                .connect(&mut guard.world.dom, number)
                .map_err(refusal)?;
            guard.keep(number, f, conn);
            Ok(LuaConnection {
                machine: this.machine.clone(),
                conn,
            })
        });

        methods.add_method("Wait", |_, this, ()| -> mlua::Result<()> {
            Err(refusal(this.signal.wait()))
        });
    }
}

impl UserData for LuaConnection {
    fn add_fields<F: UserDataFields<Self>>(fields: &mut F) {
        fields.add_meta_field(MetaMethod::Type, "RBXScriptConnection");
        fields.add_field_method_get("Connected", |_, this| {
            let guard = this.machine.lock().expect("machine");
            Ok(guard.world.dom.is_connected(this.conn))
        });
    }

    fn add_methods<M: UserDataMethods<Self>>(methods: &mut M) {
        methods.add_meta_method(MetaMethod::ToString, |_, _, ()| Ok("Connection"));

        methods.add_meta_method(MetaMethod::Eq, |_, this, other: Value| {
            let Value::UserData(ud) = other else {
                return Ok(false);
            };
            let Ok(other) = ud.borrow::<LuaConnection>() else {
                return Ok(false);
            };
            Ok(Arc::ptr_eq(&this.machine, &other.machine) && this.conn == other.conn)
        });

        methods.add_method("Disconnect", |_, this, ()| {
            let mut guard = this.machine.lock().expect("machine");
            guard.world.dom.disconnect(this.conn);
            Ok(())
        });
    }
}

/// `CollectionService`.
struct CollectionServiceHandle {
    machine: SharedMachine,
}

impl UserData for CollectionServiceHandle {
    fn add_methods<M: UserDataMethods<Self>>(methods: &mut M) {
        methods.add_meta_method(MetaMethod::ToString, |_, _, ()| {
            Ok("CollectionService".to_string())
        });

        methods.add_method(
            "AddTag",
            |lua, this, (instance, tag): (AnyUserData, String)| {
                let id = instance.borrow::<InstanceRef>()?.id;
                let agenda = {
                    let mut guard = this.machine.lock().expect("machine");
                    add_tag(&mut guard.world, id, &tag).map_err(refusal)?
                };
                perform(lua, &this.machine, agenda)
            },
        );

        methods.add_method(
            "RemoveTag",
            |lua, this, (instance, tag): (AnyUserData, String)| {
                let id = instance.borrow::<InstanceRef>()?.id;
                let agenda = {
                    let mut guard = this.machine.lock().expect("machine");
                    remove_tag(&mut guard.world, id, &tag).map_err(refusal)?
                };
                perform(lua, &this.machine, agenda)
            },
        );

        methods.add_method("HasTag", |_, this, (instance, tag): (AnyUserData, String)| {
            let id = instance.borrow::<InstanceRef>()?.id;
            let guard = this.machine.lock().expect("machine");
            has_tag(&guard.world.dom, id, &tag).map_err(refusal)
        });

        methods.add_method("GetTagged", |lua, this, tag: String| {
            let ids = get_tagged(&this.machine.lock().expect("machine").world.dom, &tag);
            let out = lua.create_table()?;
            for (i, id) in ids.into_iter().enumerate() {
                out.raw_set(i + 1, handle(lua, &this.machine, id)?)?;
            }
            Ok(out)
        });

        methods.add_method("GetTags", |lua, this, instance: AnyUserData| {
            let id = instance.borrow::<InstanceRef>()?.id;
            let tags = {
                let guard = this.machine.lock().expect("machine");
                get_tags(&guard.world.dom, id).map_err(refusal)?
            };
            let out = lua.create_table()?;
            for (i, tag) in tags.into_iter().enumerate() {
                out.raw_set(i + 1, tag)?;
            }
            Ok(out)
        });

        methods.add_method("GetInstanceAddedSignal", |_, this, tag: String| {
            let mut guard = this.machine.lock().expect("machine");
            let signal = instance_added_signal(&mut guard.world.dom, &tag);
            Ok(LuaSignal::of(&this.machine, signal))
        });

        methods.add_method("GetInstanceRemovedSignal", |_, this, tag: String| {
            let mut guard = this.machine.lock().expect("machine");
            let signal = instance_removed_signal(&mut guard.world.dom, &tag);
            Ok(LuaSignal::of(&this.machine, signal))
        });
    }
}

/// `services`, with one object for each service.
struct ServiceProviderHandle {
    collection_service: AnyUserData,
}

impl UserData for ServiceProviderHandle {
    fn add_methods<M: UserDataMethods<Self>>(methods: &mut M) {
        methods.add_meta_method(MetaMethod::ToString, |_, _, ()| Ok("services".to_string()));

        methods.add_method("GetService", |lua, this, name: String| -> mlua::Result<Value> {
            match get_service(&name).map_err(refusal)? {
                Service::CollectionService => this.collection_service.clone().into_lua(lua),
            }
        });
    }
}

fn install_services(lua: &Lua, machine: &SharedMachine) -> mlua::Result<()> {
    let collection_service = lua.create_userdata(CollectionServiceHandle {
        machine: machine.clone(),
    })?;
    let services = lua.create_userdata(ServiceProviderHandle { collection_service })?;
    lua.globals().set("services", services)
}

/// One member. `typeof` reports "EnumItem".
#[derive(Clone)]
struct LuaEnumItem {
    machine: SharedMachine,
    ty: String,
    name: String,
    value: u32,
}

impl LuaEnumItem {
    fn of(machine: &SharedMachine, item: EnumItem) -> LuaEnumItem {
        LuaEnumItem {
            machine: machine.clone(),
            ty: item.ty,
            name: item.name,
            value: item.value,
        }
    }

    fn item(&self) -> EnumItem {
        EnumItem {
            ty: self.ty.clone(),
            name: self.name.clone(),
            value: self.value,
        }
    }
}

/// One enumeration. `typeof` reports "Enum".
#[derive(Clone)]
struct LuaEnumCategory {
    machine: SharedMachine,
    name: String,
}

/// All of them. `typeof` reports "Enums".
#[derive(Clone)]
struct LuaEnums {
    machine: SharedMachine,
}

impl UserData for LuaEnumItem {
    fn add_fields<F: UserDataFields<Self>>(fields: &mut F) {
        fields.add_meta_field(MetaMethod::Type, "EnumItem");
        fields.add_field_method_get("Name", |_, this| Ok(this.name.clone()));
        fields.add_field_method_get("Value", |_, this| Ok(this.value));
        fields.add_field_method_get("EnumType", |_, this| {
            Ok(LuaEnumCategory {
                machine: this.machine.clone(),
                name: this.ty.clone(),
            })
        });
    }

    fn add_methods<M: UserDataMethods<Self>>(methods: &mut M) {
        methods.add_meta_method(MetaMethod::ToString, |_, this, ()| {
            Ok(item_text(&this.item()))
        });
        methods.add_meta_method(MetaMethod::Eq, |_, this, other: Value| {
            let Value::UserData(ud) = other else {
                return Ok(false);
            };
            Ok(match ud.borrow::<LuaEnumItem>() {
                Ok(o) => same_item(&this.item(), &o.item()),
                Err(_) => false,
            })
        });
    }
}

impl UserData for LuaEnumCategory {
    fn add_fields<F: UserDataFields<Self>>(fields: &mut F) {
        fields.add_meta_field(MetaMethod::Type, "Enum");
    }

    fn add_methods<M: UserDataMethods<Self>>(methods: &mut M) {
        methods.add_meta_method(MetaMethod::ToString, |_, this, ()| Ok(this.name.clone()));

        methods.add_meta_method(MetaMethod::Index, |lua, this, key: String| {
            let indexed = {
                let guard = this.machine.lock().expect("machine");
                enum_index(&guard.catalog, &this.name, &key).map_err(refusal)?
            };
            match indexed {
                Indexed::Item(item) => LuaEnumItem::of(&this.machine, item).into_lua(lua),
                Indexed::Items => {
                    let this = this.clone();
                    lua.create_function(move |_, ()| {
                        let items = {
                            let guard = this.machine.lock().expect("machine");
                            get_enum_items(&guard.catalog, &this.name).map_err(refusal)?
                        };
                        let all: Vec<LuaEnumItem> = items
                            .into_iter()
                            .map(|i| LuaEnumItem::of(&this.machine, i))
                            .collect();
                        Ok(all)
                    })?
                    .into_lua(lua)
                }
            }
        });
    }
}

impl UserData for LuaEnums {
    fn add_fields<F: UserDataFields<Self>>(fields: &mut F) {
        fields.add_meta_field(MetaMethod::Type, "Enums");
    }

    fn add_methods<M: UserDataMethods<Self>>(methods: &mut M) {
        methods.add_meta_method(MetaMethod::ToString, |_, _, ()| Ok("Enums"));
        methods.add_meta_method(MetaMethod::Index, |_, this, key: String| {
            if let Err(e) = rbx_reflection_database::get() {
                return Err(Error::runtime(format!(
                    "the reflection database is unavailable: {e}"
                )));
            }
            let guard = this.machine.lock().expect("machine");
            let name = enum_named(&guard.catalog, &key).map_err(refusal)?;
            Ok(LuaEnumCategory {
                machine: this.machine.clone(),
                name,
            })
        });
    }
}

fn install_enums(lua: &Lua, machine: &SharedMachine) -> mlua::Result<()> {
    lua.globals().set(
        "Enum",
        LuaEnums {
            machine: machine.clone(),
        },
    )
}

/// A content. `typeof` reports "Content".
struct LuaContent(Content);

/// A font. `typeof` reports "Font". One may show its weight and its style as
/// members of their enumerations.
struct LuaFont {
    machine: SharedMachine,
    font: Font,
    members: bool,
}

impl UserData for LuaContent {
    fn add_fields<F: UserDataFields<Self>>(fields: &mut F) {
        fields.add_meta_field(MetaMethod::Type, "Content");
        fields.add_field_method_get("Uri", |_, this| Ok(uri_of(&this.0)));
        fields.add_field_method_get("SourceType", |_, this| Ok(source_type(&this.0)));
    }

    fn add_methods<M: UserDataMethods<Self>>(methods: &mut M) {
        methods.add_meta_method(MetaMethod::ToString, |_, this, ()| Ok(content_text(&this.0)));
        methods.add_meta_method(MetaMethod::Eq, |_, this, other: Value| {
            Ok(is_alike(&Guest::Content(this.0.dup()), &guest_of(&other)))
        });
    }
}

fn either(lua: &Lua, machine: &SharedMachine, e: EitherEnum) -> mlua::Result<Value> {
    match e {
        EitherEnum::Item(item) => LuaEnumItem::of(machine, item).into_lua(lua),
        EitherEnum::Number(n) => Ok(Value::Integer(n as i64)),
    }
}

impl UserData for LuaFont {
    fn add_fields<F: UserDataFields<Self>>(fields: &mut F) {
        fields.add_meta_field(MetaMethod::Type, "Font");
        fields.add_field_method_get("Family", |_, this| Ok(this.font.family.clone()));
        fields.add_field_method_get("Weight", |lua, this| {
            if !this.members {
                return Ok(Value::Integer(this.font.weight as i64));
            }
            let e = weight_item(&this.machine.lock().expect("machine").catalog, &this.font);
            either(lua, &this.machine, e)
        });
        fields.add_field_method_get("Style", |lua, this| {
            if !this.members {
                return Ok(Value::Integer(this.font.style as i64));
            }
            let e = style_item(&this.machine.lock().expect("machine").catalog, &this.font);
            either(lua, &this.machine, e)
        });
        fields.add_field_method_get("Bold", |_, this| Ok(is_bold(&this.font)));
    }

    fn add_methods<M: UserDataMethods<Self>>(methods: &mut M) {
        methods.add_meta_method(MetaMethod::ToString, |_, this, ()| {
            Ok(if this.members {
                member_font_text(&this.font)
            } else {
                font_text(&this.font)
            })
        });
        methods.add_meta_method(MetaMethod::Eq, |_, this, other: Value| {
            Ok(is_alike(&Guest::Font(this.font.dup()), &guest_of(&other)))
        });
    }
}

fn install_content(lua: &Lua, machine: &SharedMachine) -> mlua::Result<()> {
    let content = lua.create_table()?;
    content.set(
        "fromUri",
        lua.create_function(|_, uri: String| Ok(LuaContent(content_from_uri(uri))))?,
    )?;
    content.set("none", LuaContent(Content::Empty))?;
    lua.globals().set("Content", content)?;

    let font = lua.create_table()?;
    let shared = machine.clone();
    font.set(
        "new",
        lua.create_function(move |_, (family, weight, style): (String, Value, Value)| {
            let font = font_new(family, &guest_of(&weight), &guest_of(&style)).map_err(refusal)?;
            Ok(LuaFont {
                machine: shared.clone(),
                font,
                members: false,
            })
        })?,
    )?;
    lua.globals().set("Font", font)
}

/// `Font.new` for fonts that show members.
fn install_member_font(lua: &Lua, machine: &SharedMachine) -> mlua::Result<()> {
    let font = lua.create_table()?;
    let shared = machine.clone();
    font.set(
        "new",
        lua.create_function(
            move |_, (family, weight, style): (String, Option<Value>, Option<Value>)| {
                let weight = weight.unwrap_or(Value::Nil);
                let style = style.unwrap_or(Value::Nil);
                let font = member_font_new(family, &guest_of(&weight), &guest_of(&style))
                    .map_err(refusal)?;
                Ok(LuaFont {
                    machine: shared.clone(),
                    font,
                    members: true,
                })
            },
        )?,
    )?;
    lua.globals().set("Font", font)
}

#[derive(Clone, Copy)]
struct LuaUDim(UDim);

#[derive(Clone, Copy)]
struct LuaUDim2(UDim2);

#[derive(Clone, Copy)]
struct LuaVector2(Vector2);

#[derive(Clone, Copy)]
struct LuaColor3(Color3);

#[derive(Clone, Copy)]
struct LuaRect(Rect);

#[derive(Clone, Copy)]
struct LuaNumberKey(NumberKey);

#[derive(Clone, Copy)]
struct LuaColorKey(ColorKey);

#[derive(Clone)]
struct LuaNumberSequence(Vec<NumberKey>);

#[derive(Clone)]
struct LuaColorSequence(Vec<ColorKey>);

fn single(bits: u32) -> f32 {
    f32::from_bits(bits)
}

fn bits(x: Option<f32>) -> Option<u32> {
    x.map(f32::to_bits)
}

fn double(x: Option<f64>) -> Option<Number> {
    x.map(|v| number(v, false))
}

/// Offsets are added as the machine adds them, and one that does not fit is an error of the guest.
fn overflows(results: [Option<i32>; 2]) -> bool {
    results.iter().any(Option::is_none)
}

fn too_large() -> Error {
    Error::runtime("attempt to add with overflow")
}

impl UserData for LuaUDim {
    fn add_fields<F: UserDataFields<Self>>(fields: &mut F) {
        fields.add_meta_field(MetaMethod::Type, "UDim");
        fields.add_field_method_get("Scale", |_, this| Ok(single(this.0.scale)));
        fields.add_field_method_get("Offset", |_, this| Ok(this.0.offset));
    }

    fn add_methods<M: UserDataMethods<Self>>(methods: &mut M) {
        methods.add_meta_method(MetaMethod::ToString, |_, this, ()| {
            Ok(udim_text::<Single>(this.0))
        });
        methods.add_meta_method(MetaMethod::Eq, |_, this, other: Value| {
            Ok(is_alike(&Guest::UDim(this.0), &guest_of(&other)))
        });
        methods.add_meta_method(MetaMethod::Add, |_, this, other: Value| {
            let other = guest_of(&other);
            if let Guest::UDim(b) = &other {
                let sum = this.0.offset.checked_add(b.offset);
                if overflows([sum, sum]) {
                    return Err(too_large());
                }
            }
            Ok(LuaUDim(
                udim_plus::<Single>(this.0, &other).map_err(refusal)?,
            ))
        });
        methods.add_meta_method(MetaMethod::Sub, |_, this, other: Value| {
            let other = guest_of(&other);
            if let Guest::UDim(b) = &other {
                let rest = this.0.offset.checked_sub(b.offset);
                if overflows([rest, rest]) {
                    return Err(too_large());
                }
            }
            Ok(LuaUDim(
                udim_minus::<Single>(this.0, &other).map_err(refusal)?,
            ))
        });
    }
}

impl UserData for LuaUDim2 {
    fn add_fields<F: UserDataFields<Self>>(fields: &mut F) {
        fields.add_meta_field(MetaMethod::Type, "UDim2");
        fields.add_field_method_get("X", |_, this| Ok(LuaUDim(this.0.x)));
        fields.add_field_method_get("Y", |_, this| Ok(LuaUDim(this.0.y)));
        fields.add_field_method_get("Width", |_, this| Ok(LuaUDim(this.0.x)));
        fields.add_field_method_get("Height", |_, this| Ok(LuaUDim(this.0.y)));
    }

    fn add_methods<M: UserDataMethods<Self>>(methods: &mut M) {
        methods.add_meta_method(MetaMethod::ToString, |_, this, ()| {
            Ok(udim2_text::<Single>(this.0))
        });
        methods.add_meta_method(MetaMethod::Eq, |_, this, other: Value| {
            Ok(is_alike(&Guest::UDim2(this.0), &guest_of(&other)))
        });
        methods.add_meta_method(MetaMethod::Add, |_, this, other: Value| {
            let other = guest_of(&other);
            if let Guest::UDim2(b) = &other {
                if overflows([
                    this.0.x.offset.checked_add(b.x.offset),
                    this.0.y.offset.checked_add(b.y.offset),
                ]) {
                    return Err(too_large());
                }
            }
            Ok(LuaUDim2(
                udim2_plus::<Single>(this.0, &other).map_err(refusal)?,
            ))
        });
        methods.add_meta_method(MetaMethod::Sub, |_, this, other: Value| {
            let other = guest_of(&other);
            if let Guest::UDim2(b) = &other {
                if overflows([
                    this.0.x.offset.checked_sub(b.x.offset),
                    this.0.y.offset.checked_sub(b.y.offset),
                ]) {
                    return Err(too_large());
                }
            }
            Ok(LuaUDim2(
                udim2_minus::<Single>(this.0, &other).map_err(refusal)?,
            ))
        });
    }
}

impl UserData for LuaVector2 {
    fn add_fields<F: UserDataFields<Self>>(fields: &mut F) {
        fields.add_meta_field(MetaMethod::Type, "Vector2");
        fields.add_field_method_get("X", |_, this| Ok(single(this.0.x)));
        fields.add_field_method_get("Y", |_, this| Ok(single(this.0.y)));
    }

    fn add_methods<M: UserDataMethods<Self>>(methods: &mut M) {
        methods.add_meta_method(MetaMethod::ToString, |_, this, ()| {
            Ok(vector2_text::<Single>(this.0))
        });
        methods.add_meta_method(MetaMethod::Eq, |_, this, other: Value| {
            Ok(is_alike(&Guest::Vector2(this.0), &guest_of(&other)))
        });
        methods.add_meta_method(MetaMethod::Add, |_, this, other: Value| {
            let sum = vector2_plus::<Single>(this.0, &guest_of(&other)).map_err(refusal)?;
            Ok(LuaVector2(sum))
        });
        methods.add_meta_method(MetaMethod::Sub, |_, this, other: Value| {
            let rest = vector2_minus::<Single>(this.0, &guest_of(&other)).map_err(refusal)?;
            Ok(LuaVector2(rest))
        });
        methods.add_meta_function(MetaMethod::Mul, |_, (a, b): (Value, Value)| {
            let product = vector2_product::<Single>(&guest_of(&a), &guest_of(&b)).map_err(refusal)?;
            Ok(LuaVector2(product))
        });
    }
}

impl UserData for LuaColor3 {
    fn add_fields<F: UserDataFields<Self>>(fields: &mut F) {
        fields.add_meta_field(MetaMethod::Type, "Color3");
        fields.add_field_method_get("R", |_, this| Ok(single(this.0.r)));
        fields.add_field_method_get("G", |_, this| Ok(single(this.0.g)));
        fields.add_field_method_get("B", |_, this| Ok(single(this.0.b)));
    }

    fn add_methods<M: UserDataMethods<Self>>(methods: &mut M) {
        methods.add_meta_method(MetaMethod::ToString, |_, this, ()| {
            Ok(color3_text::<Single>(this.0))
        });
        methods.add_meta_method(MetaMethod::Eq, |_, this, other: Value| {
            Ok(is_alike(&Guest::Color3(this.0), &guest_of(&other)))
        });
    }
}

impl UserData for LuaRect {
    fn add_fields<F: UserDataFields<Self>>(fields: &mut F) {
        fields.add_meta_field(MetaMethod::Type, "Rect");
        fields.add_field_method_get("Min", |_, this| Ok(LuaVector2(this.0.min)));
        fields.add_field_method_get("Max", |_, this| Ok(LuaVector2(this.0.max)));
        fields.add_field_method_get("Width", |_, this| {
            Ok(single(rect_width::<Single>(this.0)))
        });
        fields.add_field_method_get("Height", |_, this| {
            Ok(single(rect_height::<Single>(this.0)))
        });
    }

    fn add_methods<M: UserDataMethods<Self>>(methods: &mut M) {
        methods.add_meta_method(MetaMethod::ToString, |_, this, ()| {
            Ok(rect_text::<Single>(this.0))
        });
        methods.add_meta_method(MetaMethod::Eq, |_, this, other: Value| {
            Ok(is_alike(&Guest::Rect(this.0), &guest_of(&other)))
        });
    }
}

impl UserData for LuaNumberKey {
    fn add_fields<F: UserDataFields<Self>>(fields: &mut F) {
        fields.add_meta_field(MetaMethod::Type, "NumberSequenceKeypoint");
        fields.add_field_method_get("Time", |_, this| Ok(single(this.0.time)));
        fields.add_field_method_get("Value", |_, this| Ok(single(this.0.value)));
        fields.add_field_method_get("Envelope", |_, this| Ok(single(this.0.envelope)));
    }

    fn add_methods<M: UserDataMethods<Self>>(methods: &mut M) {
        methods.add_meta_method(MetaMethod::ToString, |_, this, ()| {
            Ok(number_key_text::<Single>(this.0))
        });
        methods.add_meta_method(MetaMethod::Eq, |_, this, other: Value| {
            Ok(is_alike(&Guest::NumberKey(this.0), &guest_of(&other)))
        });
    }
}

impl UserData for LuaColorKey {
    fn add_fields<F: UserDataFields<Self>>(fields: &mut F) {
        fields.add_meta_field(MetaMethod::Type, "ColorSequenceKeypoint");
        fields.add_field_method_get("Time", |_, this| Ok(single(this.0.time)));
        fields.add_field_method_get("Value", |_, this| Ok(LuaColor3(this.0.color)));
    }

    fn add_methods<M: UserDataMethods<Self>>(methods: &mut M) {
        methods.add_meta_method(MetaMethod::ToString, |_, this, ()| {
            Ok(color_key_text::<Single>(this.0))
        });
        methods.add_meta_method(MetaMethod::Eq, |_, this, other: Value| {
            Ok(is_alike(&Guest::ColorKey(this.0), &guest_of(&other)))
        });
    }
}

impl UserData for LuaNumberSequence {
    fn add_fields<F: UserDataFields<Self>>(fields: &mut F) {
        fields.add_meta_field(MetaMethod::Type, "NumberSequence");
        fields.add_field_method_get("Keypoints", |lua, this| {
            let out = lua.create_table()?;
            for (i, k) in this.0.iter().enumerate() {
                out.set(i + 1, LuaNumberKey(*k))?;
            }
            Ok(out)
        });
    }

    fn add_methods<M: UserDataMethods<Self>>(methods: &mut M) {
        methods.add_meta_method(MetaMethod::Eq, |_, this, other: Value| {
            let own = Guest::NumberSequence(this.0.clone());
            Ok(is_alike(&own, &guest_of(&other)))
        });
    }
}

impl UserData for LuaColorSequence {
    fn add_fields<F: UserDataFields<Self>>(fields: &mut F) {
        fields.add_meta_field(MetaMethod::Type, "ColorSequence");
        fields.add_field_method_get("Keypoints", |lua, this| {
            let out = lua.create_table()?;
            for (i, k) in this.0.iter().enumerate() {
                out.set(i + 1, LuaColorKey(*k))?;
            }
            Ok(out)
        });
    }

    fn add_methods<M: UserDataMethods<Self>>(methods: &mut M) {
        methods.add_meta_method(MetaMethod::Eq, |_, this, other: Value| {
            let own = Guest::ColorSequence(this.0.clone());
            Ok(is_alike(&own, &guest_of(&other)))
        });
    }
}

fn all(args: MultiValue) -> Vec<Guest> {
    args.iter().map(guest_of).collect()
}

fn first_of(value: &Value) -> mlua::Result<First> {
    match value {
        Value::Table(list) => {
            let mut out = Vec::new();
            for entry in list.clone().sequence_values::<Value>() {
                out.push(guest_of(&entry?));
            }
            Ok(First::List(out))
        }
        other => Ok(First::One(guest_of(other))),
    }
}

/// The constructors, as globals.
fn install_values(lua: &Lua, machine: &SharedMachine) -> mlua::Result<()> {
    let globals = lua.globals();

    let udim = lua.create_table()?;
    udim.set(
        "new",
        lua.create_function(|_, (scale, offset): (Option<f32>, Option<f64>)| {
            Ok(LuaUDim(udim_new(bits(scale), &double(offset))))
        })?,
    )?;
    globals.set("UDim", udim)?;

    let udim2 = lua.create_table()?;
    udim2.set(
        "new",
        lua.create_function(|_, args: MultiValue| Ok(LuaUDim2(udim2_new(&all(args)))))?,
    )?;
    udim2.set(
        "fromScale",
        lua.create_function(|_, (x, y): (Option<f32>, Option<f32>)| {
            Ok(LuaUDim2(udim2_from_scale(bits(x), bits(y))))
        })?,
    )?;
    udim2.set(
        "fromOffset",
        lua.create_function(|_, (x, y): (Option<f64>, Option<f64>)| {
            Ok(LuaUDim2(udim2_from_offset(&double(x), &double(y))))
        })?,
    )?;
    globals.set("UDim2", udim2)?;

    let vector2 = lua.create_table()?;
    vector2.set(
        "new",
        lua.create_function(|_, (x, y): (Option<f32>, Option<f32>)| {
            Ok(LuaVector2(vector2_new(bits(x), bits(y))))
        })?,
    )?;
    vector2.set("zero", LuaVector2(vector2_zero()))?;
    vector2.set("one", LuaVector2(vector2_one()))?;
    globals.set("Vector2", vector2)?;

    let color3 = lua.create_table()?;
    color3.set(
        "new",
        lua.create_function(|_, (r, g, b): (Option<f32>, Option<f32>, Option<f32>)| {
            Ok(LuaColor3(color3_new(bits(r), bits(g), bits(b))))
        })?,
    )?;
    color3.set(
        "fromRGB",
        lua.create_function(|_, (r, g, b): (Option<f32>, Option<f32>, Option<f32>)| {
            Ok(LuaColor3(color3_from_rgb::<Single>(
                bits(r),
                bits(g),
                bits(b),
            )))
        })?,
    )?;
    color3.set(
        "fromHex",
        lua.create_function(|_, hex: String| {
            Ok(LuaColor3(color3_from_hex::<Single>(&hex).map_err(refusal)?))
        })?,
    )?;
    color3.set(
        "fromHSV",
        lua.create_function(|_, (h, s, v): (f32, f32, f32)| {
            Ok(LuaColor3(color3_from_hsv::<Single>(
                h.to_bits(),
                s.to_bits(),
                v.to_bits(),
            )))
        })?,
    )?;
    globals.set("Color3", color3)?;

    let rect = lua.create_table()?;
    rect.set(
        "new",
        lua.create_function(|_, args: MultiValue| Ok(LuaRect(rect_new(&all(args)))))?,
    )?;
    globals.set("Rect", rect)?;

    install_member_font(lua, machine)?;

    let number_key = lua.create_table()?;
    number_key.set(
        "new",
        lua.create_function(|_, (time, value, envelope): (f32, f32, Option<f32>)| {
            Ok(LuaNumberKey(number_key_new(
                time.to_bits(),
                value.to_bits(),
                bits(envelope),
            )))
        })?,
    )?;
    globals.set("NumberSequenceKeypoint", number_key)?;

    let numbers = lua.create_table()?;
    numbers.set(
        "new",
        lua.create_function(|_, (first, second): (Value, Option<f32>)| {
            let keys = number_sequence_new(&first_of(&first)?, bits(second)).map_err(refusal)?;
            Ok(LuaNumberSequence(keys))
        })?,
    )?;
    globals.set("NumberSequence", numbers)?;

    let color_key = lua.create_table()?;
    color_key.set(
        "new",
        lua.create_function(|_, (time, value): (f32, Value)| {
            let key = color_key_new(time.to_bits(), &guest_of(&value)).map_err(refusal)?;
            Ok(LuaColorKey(key))
        })?,
    )?;
    globals.set("ColorSequenceKeypoint", color_key)?;

    let colors = lua.create_table()?;
    colors.set(
        "new",
        lua.create_function(|_, (first, second): (Value, Option<Value>)| {
            let second = second.map(|v| guest_of(&v));
            let keys = color_sequence_new(&first_of(&first)?, &second).map_err(refusal)?;
            Ok(LuaColorSequence(keys))
        })?,
    )?;
    globals.set("ColorSequence", colors)
}

/// An input event. `typeof` reports "InputObject".
#[derive(Clone)]
struct LuaInput {
    machine: SharedMachine,
    object: InputObject,
}

impl LuaInput {
    fn new(machine: &SharedMachine, object: InputObject) -> LuaInput {
        LuaInput {
            machine: machine.clone(),
            object,
        }
    }

    fn item(&self, lua: &Lua, ty: &str, name: &str) -> mlua::Result<Value> {
        let item = enum_member(&self.machine.lock().expect("machine").catalog, ty, name);
        match item {
            Ok(item) => LuaEnumItem::of(&self.machine, item).into_lua(lua),
            Err(_) => Ok(Value::Nil),
        }
    }
}

impl UserData for LuaInput {
    fn add_fields<F: UserDataFields<Self>>(fields: &mut F) {
        fields.add_meta_field(MetaMethod::Type, "InputObject");
        fields.add_field_method_get("UserInputType", |lua, this| {
            this.item(lua, "UserInputType", this.object.user_input_type.name())
        });
        fields.add_field_method_get("UserInputState", |lua, this| {
            this.item(lua, "UserInputState", this.object.user_input_state.name())
        });
        fields.add_field_method_get("Position", |_, this| Ok(LuaVector2(this.object.position)));
        fields.add_field_method_get("Delta", |_, this| Ok(LuaVector2(this.object.delta)));
    }

    fn add_methods<M: UserDataMethods<Self>>(methods: &mut M) {
        methods.add_meta_method(MetaMethod::ToString, |_, this, ()| Ok(this.object.text()));
    }
}

/// The pointer over one surface of one machine.
struct Mouse {
    pointer: Pointer<Single>,
    surface: Surface<Single>,
}

impl Mouse {
    fn new(root: usize, width: f32, height: f32) -> Mouse {
        Mouse {
            pointer: Pointer::new(),
            surface: Surface {
                root,
                width: Single(width),
                height: Single(height),
            },
        }
    }

    fn at(x: f32, y: f32) -> Point<Single> {
        Point {
            x: Single(x),
            y: Single(y),
        }
    }

    fn plan(
        &mut self,
        machine: &SharedMachine,
        f: impl FnOnce(&mut Pointer<Single>, &Layout<'_, Fonts>, Option<usize>) -> Agenda,
    ) -> Agenda {
        let guard = machine.lock().expect("machine");
        let scene = Layout {
            dom: &guard.world.dom,
            catalog: &guard.catalog,
            ruler: &guard.fonts,
        };
        f(&mut self.pointer, &scene, guard.world.focus)
    }

    fn moved(&mut self, lua: &Lua, machine: &SharedMachine, x: f32, y: f32) -> mlua::Result<()> {
        let on = self.surface;
        let agenda = self.plan(machine, |p, scene, _| p.moved(scene, on, Mouse::at(x, y)));
        perform(lua, machine, agenda)
    }

    fn down(
        &mut self,
        lua: &Lua,
        machine: &SharedMachine,
        button: Button,
        x: f32,
        y: f32,
    ) -> mlua::Result<()> {
        let on = self.surface;
        let agenda = self.plan(machine, |p, scene, focus| {
            p.down(scene, focus, on, button, Mouse::at(x, y))
        });
        perform(lua, machine, agenda)
    }

    fn up(
        &mut self,
        lua: &Lua,
        machine: &SharedMachine,
        button: Button,
        x: f32,
        y: f32,
    ) -> mlua::Result<()> {
        let on = self.surface;
        let agenda = self.plan(machine, |p, scene, _| p.up(scene, on, button, Mouse::at(x, y)));
        perform(lua, machine, agenda)
    }

    fn key(&mut self, lua: &Lua, machine: &SharedMachine, name: &str) -> mlua::Result<()> {
        let agenda = self.plan(machine, |p, _, focus| p.key(focus, name));
        perform(lua, machine, agenda)
    }

    fn wheel(
        &mut self,
        lua: &Lua,
        machine: &SharedMachine,
        x: f32,
        y: f32,
        delta: f32,
    ) -> mlua::Result<()> {
        let agenda = {
            let mut guard = machine.lock().expect("machine");
            let now = guard.now();
            let m = &mut *guard;
            self.pointer.wheel(
                &mut m.world,
                &m.catalog,
                &m.fonts,
                self.surface,
                Mouse::at(x, y),
                Single(delta),
                now,
            )
        };
        perform(lua, machine, agenda)
    }

    fn refresh(&mut self, lua: &Lua, machine: &SharedMachine) -> mlua::Result<()> {
        let on = self.surface;
        let agenda = self.plan(machine, |p, scene, _| p.refresh(scene, on));
        perform(lua, machine, agenda)
    }
}

fn told<T>(r: mlua::Result<T>) -> Result<T, String> {
    r.map_err(|e| e.to_string())
}

fn raw_node(node: &Table) -> RawNode {
    let props = match node.get::<Option<Table>>("props") {
        Ok(Some(p)) => Some(
            p.pairs::<String, Value>()
                .map(|pair| told(pair).map(|(k, _)| k))
                .collect(),
        ),
        _ => None,
    };
    let children = match node.get::<Option<Table>>("children") {
        Ok(Some(list)) => Some(
            list.sequence_values::<Table>()
                .map(|child| told(child).map(|c| raw_node(&c)))
                .collect(),
        ),
        _ => None,
    };
    RawNode {
        class: told(node.get::<Option<String>>("class")),
        name: told(node.get::<Option<String>>("name")),
        props,
        children,
    }
}

/// What a scene's table holds, with the values of its variants beside it.
fn raw_scene(table: &Table) -> (RawScene, Vec<Value>) {
    let mut values = Vec::new();
    let fields = table
        .pairs::<Value, Value>()
        .flatten()
        .filter_map(|(key, _)| match key {
            Value::String(s) => Some(s.to_string_lossy().to_string()),
            _ => None,
        })
        .collect();
    let surface = match table.get::<Option<Table>>("surface") {
        Ok(Some(s)) => Some(RawSurface {
            width: s.get::<f32>("width").ok().map(f32::to_bits),
            height: s.get::<f32>("height").ok().map(f32::to_bits),
        }),
        _ => None,
    };
    let variants = match table.get::<Option<Table>>("variants") {
        Ok(Some(list)) => Some(
            list.sequence_values::<Table>()
                .map(|entry| {
                    told(entry).map(|e| RawVariant {
                        node: told(e.get::<Option<String>>("node")),
                        prop: told(e.get::<Option<String>>("prop")),
                        value: told(e.get::<Option<Value>>("value")).map(|v| {
                            v.map(|v| {
                                values.push(v);
                                values.len() as u64 - 1
                            })
                        }),
                    })
                })
                .collect(),
        ),
        _ => None,
    };
    let raw = RawScene {
        fields,
        name: told(table.get::<Option<String>>("name")),
        shows: told(table.get::<Option<String>>("shows")),
        surface,
        tree: told(table.get::<Option<Table>>("tree")).map(|t| t.map(|t| raw_node(&t))),
        variants,
    };
    (raw, values)
}

/// A guest with everything in it.
fn vm_with(catalog: Catalog) -> (Lua, SharedMachine) {
    let lua = Lua::new();
    let dom = shared(catalog);
    install_instances(&lua, &dom).expect("install");
    install_services(&lua, &dom).expect("services");
    install_values(&lua, &dom).expect("vocabulary");
    install_enums(&lua, &dom).expect("enums");
    install_content(&lua, &dom).expect("content");
    (lua, dom)
}

fn vm() -> (Lua, SharedMachine) {
    vm_with(Catalog::load())
}

fn run(src: &str) -> mlua::Result<()> {
    let (lua, _dom) = vm();
    lua.load(src).exec()
}

fn eval<T: FromLuaMulti>(src: &str) -> mlua::Result<T> {
    let (lua, _dom) = vm();
    lua.load(src).eval()
}

fn err(src: &str) -> String {
    eval::<Value>(src)
        .expect_err("expected this to fail")
        .to_string()
}

/// A guest that has values and nothing else.
fn value_vm() -> Lua {
    let lua = Lua::new();
    let dom = shared(Catalog::load());
    install_values(&lua, &dom).expect("install");
    lua
}

fn value_eval<T: FromLuaMulti>(src: &str) -> mlua::Result<T> {
    value_vm().load(src).eval()
}

/// A guest that has enumerations, content and fonts.
fn content_vm() -> Lua {
    let lua = Lua::new();
    let dom = shared(Catalog::load());
    install_enums(&lua, &dom).expect("enums");
    install_content(&lua, &dom).expect("content");
    lua
}

fn content_eval<T: FromLuaMulti>(src: &str) -> mlua::Result<T> {
    content_vm().load(src).eval()
}

/// A guest that has enumerations and nothing else.
fn enum_vm() -> Lua {
    let lua = Lua::new();
    let dom = shared(Catalog::load());
    install_enums(&lua, &dom).expect("install");
    lua
}

fn enum_eval<T: FromLuaMulti>(src: &str) -> mlua::Result<T> {
    enum_vm().load(src).eval()
}

fn implements(class: &str, member: &str) -> bool {
    members::implements(&Catalog::load(), class, member)
}

fn take_dirty(dom: &SharedMachine) -> bool {
    dom.lock().expect("dom").world.dom.take_dirty()
}

/// A rectangle of singles.
#[derive(Clone, Copy, Debug, PartialEq)]
struct Area {
    x: f32,
    y: f32,
    w: f32,
    h: f32,
}

fn area(b: Box2<Single>) -> Area {
    Area {
        x: b.x.0,
        y: b.y.0,
        w: b.w.0,
        h: b.h.0,
    }
}

struct ShotImage {
    uri: String,
    tint: Option<Rgb>,
    alpha: f32,
    source: Option<Area>,
    scale: Scale,
}

struct ShotNode {
    name: String,
    rect: Area,
    fill: Option<Rgb>,
    alpha: f32,
    radius: f32,
    clip_radius: f32,
    clip: Option<Area>,
    text: Option<String>,
    text_size: f32,
    text_alpha: f32,
    image: Option<ShotImage>,
}

/// A frame in singles.
struct Shot {
    nodes: Vec<ShotNode>,
}

fn shot_node(n: Node<Single>) -> ShotNode {
    ShotNode {
        name: n.name,
        rect: area(n.rect),
        fill: n.fill,
        alpha: n.alpha.0,
        radius: n.radius.0,
        clip_radius: n.clip_radius.0,
        clip: n.clip.map(area),
        text: n.text,
        text_size: n.text_size.0,
        text_alpha: n.text_alpha.0,
        image: n.image.map(|i| ShotImage {
            uri: i.uri,
            tint: i.tint,
            alpha: i.alpha.0,
            source: i.source.map(area),
            scale: i.scale,
        }),
    }
}

fn shoot(dom: &SharedMachine, root: usize, width: f32, height: f32) -> Shot {
    let mut guard = dom.lock().expect("dom");
    let m = &mut *guard;
    let frame = frame_of(
        &mut m.world.dom,
        &m.catalog,
        &m.fonts,
        root,
        Single(width),
        Single(height),
    );
    Shot {
        nodes: frame.nodes.into_iter().map(shot_node).collect(),
    }
}

/// A guest with a root of some class, known to it as `root`.
fn rooted(class: &str, name: &str) -> (Lua, SharedMachine, usize) {
    let (lua, dom) = vm();
    let root = dom
        .lock()
        .expect("dom")
        .world
        .dom
        .insert(class.to_string(), name.to_string());
    lua.globals()
        .set("root", handle(&lua, &dom, root).expect("root handle"))
        .expect("root");
    (lua, dom, root)
}

fn render(src: &str, width: f32, height: f32) -> Shot {
    let (lua, dom, root) = rooted("Folder", "Root");
    lua.load(src).exec().expect("guest");
    shoot(&dom, root, width, height)
}

const SIZE: (f32, f32) = (200.0, 100.0);

/// A guest under a pointer.
struct Harness {
    lua: Lua,
    dom: SharedMachine,
    root: usize,
    mouse: Mouse,
}

impl Harness {
    fn new(src: &str) -> Harness {
        let (lua, dom, root) = rooted("ScreenGui", "DewRoot");
        lua.globals()
            .set("log", lua.create_table().expect("table"))
            .expect("log");
        lua.load(src).exec().expect("guest");
        take_dirty(&dom);
        Harness {
            lua,
            dom,
            root,
            mouse: Mouse::new(root, SIZE.0, SIZE.1),
        }
    }

    fn moved(&mut self, x: f32, y: f32) {
        self.mouse.moved(&self.lua, &self.dom, x, y).expect("input");
    }

    fn press(&mut self, button: Button, x: f32, y: f32) {
        self.mouse
            .down(&self.lua, &self.dom, button, x, y)
            .expect("input");
    }

    fn release(&mut self, button: Button, x: f32, y: f32) {
        self.mouse
            .up(&self.lua, &self.dom, button, x, y)
            .expect("input");
    }

    fn down(&mut self, x: f32, y: f32) {
        self.press(Button::Left, x, y);
    }

    fn up(&mut self, x: f32, y: f32) {
        self.release(Button::Left, x, y);
    }

    fn key(&mut self, name: &str) {
        self.mouse.key(&self.lua, &self.dom, name).expect("input");
    }

    fn right_down(&mut self, x: f32, y: f32) {
        self.press(Button::Right, x, y);
    }

    fn right_up(&mut self, x: f32, y: f32) {
        self.release(Button::Right, x, y);
    }

    fn wheel(&mut self, x: f32, y: f32, delta: f32) {
        self.mouse
            .wheel(&self.lua, &self.dom, x, y, delta)
            .expect("input");
    }

    fn refresh(&mut self) {
        self.mouse.refresh(&self.lua, &self.dom).expect("input");
    }

    fn click(&mut self, x: f32, y: f32) {
        self.down(x, y);
        self.up(x, y);
    }

    fn log(&self) -> String {
        self.lua
            .load("return table.concat(log, \",\")")
            .eval::<String>()
            .expect("log")
    }

    fn eval<T: FromLuaMulti>(&self, src: &str) -> T {
        self.lua.load(src).eval().expect("eval")
    }

    fn hit_at(&self, x: f32, y: f32) -> Option<String> {
        let guard = self.dom.lock().expect("dom");
        let scene = Layout {
            dom: &guard.world.dom,
            catalog: &guard.catalog,
            ruler: &guard.fonts,
        };
        let at = Point {
            x: Single(x),
            y: Single(y),
        };
        scene
            .hit(self.mouse.surface, at)
            .and_then(|id| guard.world.dom.name_of(id))
    }

    fn dirty(&self) -> bool {
        take_dirty(&self.dom)
    }
}

const ONE_BUTTON: &str = r#"
    b = Instance.new("TextButton")
    b.Name = "Go"
    b.Size = UDim2.new(0, 100, 0, 100)
    b.Parent = root
"#;

fn scene_from(src: &str) -> Result<Scene, String> {
    let lua = Lua::new();
    let table: Table = lua
        .load(src)
        .eval()
        .map_err(|e| format!("probe: {e}"))?;
    let (raw, _) = raw_scene(&table);
    decode_scene(&raw, "probe", "testpillar")
}

// Instances, their properties, and their place in the tree.

#[test]
fn typeof_an_instance_is_instance() {
    let got: String = eval(r#"return typeof(Instance.new("Frame"))"#).expect("eval");
    assert_eq!(got, "Instance");
}

#[test]
fn a_new_instance_is_named_for_its_class() {
    let got: String = eval(r#"return Instance.new("Frame").Name"#).expect("eval");
    assert_eq!(got, "Frame");
}

#[test]
fn an_unknown_class_is_refused() {
    let err = run(r#"Instance.new("Frmae")"#).unwrap_err().to_string();
    assert!(err.contains("Frmae"), "{err}");
    assert!(err.contains("not a valid class name"), "{err}");
}

#[test]
fn a_misspelled_property_is_an_error_rather_than_nil() {
    let err = run(r#"Instance.new("Frame").Visibel = true"#)
        .unwrap_err()
        .to_string();
    assert!(err.contains("Visibel"), "{err}");
    assert!(err.contains("Frame"), "{err}");

    let err = run(r#"local _ = Instance.new("Frame").Visibel"#)
        .unwrap_err()
        .to_string();
    assert!(err.contains("not a valid member"), "{err}");
}

#[test]
fn a_child_is_reachable_by_name() {
    let got: Vec<bool> = eval(
        r#"
        local root = Instance.new("Frame")
        local panel = Instance.new("Frame")
        panel.Name = "Panel"
        panel.Parent = root
        return { root.Panel == panel, root.Panel.Name == "Panel" }
    "#,
    )
    .expect("eval");
    assert_eq!(got, vec![true, true]);
}

#[test]
fn a_property_shadows_a_child_of_the_same_name() {
    let got: bool = eval(
        r#"
        local root = Instance.new("Frame")
        local decoy = Instance.new("Frame")
        decoy.Name = "Visible"
        decoy.Parent = root
        root.Visible = false
        return root.Visible == false
    "#,
    )
    .expect("eval");
    assert!(got);
}

#[test]
fn a_misspelled_property_still_errors_beside_a_child_lookup() {
    let err = run(r#"
        local root = Instance.new("Frame")
        local panel = Instance.new("Frame")
        panel.Name = "Panel"
        panel.Parent = root
        local _ = root.Visibel
    "#)
    .unwrap_err()
    .to_string();
    assert!(err.contains("Visibel"), "{err}");
    assert!(err.contains("not a valid member"), "{err}");
}

#[test]
fn a_missing_child_is_an_error_but_find_first_child_is_nil() {
    let err = run(r#"local _ = Instance.new("Frame").Panel"#)
        .unwrap_err()
        .to_string();
    assert!(err.contains("not a valid member"), "{err}");

    let got: bool =
        eval(r#"return Instance.new("Frame"):FindFirstChild("Panel") == nil"#).expect("eval");
    assert!(got);
}

#[test]
fn a_reparented_child_stops_answering_by_name() {
    let got: Vec<bool> = eval(
        r#"
        local root = Instance.new("Frame")
        local panel = Instance.new("Frame")
        panel.Name = "Panel"
        panel.Parent = root
        local before = root.Panel == panel
        panel.Parent = nil
        local after = pcall(function() return root.Panel end)
        return { before, after }
    "#,
    )
    .expect("eval");
    assert_eq!(got, vec![true, false]);
}

#[test]
fn a_method_still_wins_over_a_child_of_the_same_name() {
    let got: bool = eval(
        r#"
        local root = Instance.new("Frame")
        local decoy = Instance.new("Frame")
        decoy.Name = "GetChildren"
        decoy.Parent = root
        return type(root.GetChildren) == "function"
    "#,
    )
    .expect("eval");
    assert!(got);
}

#[test]
fn a_property_of_the_wrong_type_is_refused() {
    let err = run(r#"Instance.new("Frame").Visible = "yes""#)
        .unwrap_err()
        .to_string();
    assert!(err.contains("expects a boolean"), "{err}");
}

#[test]
fn a_primitive_property_round_trips() {
    let got: bool = eval(
        r#"
        local f = Instance.new("Frame")
        f.Visible = false
        return f.Visible
    "#,
    )
    .expect("eval");
    assert!(!got);
}

#[test]
fn an_unset_property_reads_its_engine_default() {
    let got: bool = eval(r#"return Instance.new("Frame").Visible"#).expect("eval");
    assert!(got);
}

#[test]
fn class_name_is_read_only() {
    let err = run(r#"Instance.new("Frame").ClassName = "TextLabel""#)
        .unwrap_err()
        .to_string();
    assert!(err.contains("read-only"), "{err}");
}

#[test]
fn a_read_only_property_is_refused() {
    let err = run(r#"Instance.new("Frame").AbsolutePosition = 1"#)
        .unwrap_err()
        .to_string();
    assert!(err.contains("read-only"), "{err}");
}

#[test]
fn a_number_is_a_number_however_the_vm_holds_it() {
    let got: f64 = eval(
        r#"
        local f = Instance.new("Frame")
        f.BackgroundTransparency = 1
        return f.BackgroundTransparency
    "#,
    )
    .expect("integer into a float property");
    assert_eq!(got, 1.0);

    let got: f64 = eval(
        r#"
        local f = Instance.new("Frame")
        f.BackgroundTransparency = 0.25
        return f.BackgroundTransparency
    "#,
    )
    .expect("fraction into a float property");
    assert_eq!(got, 0.25);

    let got: i64 = eval(
        r#"
        local f = Instance.new("Frame")
        f.ZIndex = 3
        return f.ZIndex
    "#,
    )
    .expect("integer into an int property");
    assert_eq!(got, 3);
}

#[test]
fn a_fraction_in_an_integer_property_is_refused() {
    let err = run(r#"Instance.new("Frame").ZIndex = 3.5"#)
        .unwrap_err()
        .to_string();
    assert!(err.contains("whole number"), "{err}");
    assert!(err.contains("3.5"), "{err}");
}

#[test]
fn a_udim2_property_round_trips_through_the_vocabulary() {
    let got: Vec<f64> = eval(
        r#"
        local f = Instance.new("Frame")
        f.Size = UDim2.new(0.5, 10, 0, 40)
        return { f.Size.X.Scale, f.Size.X.Offset, f.Size.Y.Scale, f.Size.Y.Offset }
    "#,
    )
    .expect("eval");
    assert_eq!(got, vec![0.5, 10.0, 0.0, 40.0]);
}

#[test]
fn a_colour_property_round_trips() {
    let got: f32 = eval(
        r#"
        local f = Instance.new("Frame")
        f.BackgroundColor3 = Color3.fromRGB(255, 128, 0)
        return f.BackgroundColor3.R
    "#,
    )
    .expect("eval");
    assert_eq!(got, 1.0);
}

#[test]
fn an_enum_property_round_trips_as_an_enum_item() {
    let got: String = eval(
        r#"
        local f = Instance.new("Frame")
        f.AutomaticSize = Enum.AutomaticSize.Y
        return f.AutomaticSize.Name
    "#,
    )
    .expect("eval");
    assert_eq!(got, "Y");
}

#[test]
fn an_unset_enum_property_reads_its_default_as_an_enum_item() {
    let got: String =
        eval(r#"return typeof(Instance.new("Frame").AutomaticSize)"#).expect("eval");
    assert_eq!(got, "EnumItem");
}

#[test]
fn a_member_of_the_wrong_enum_is_refused() {
    let err = run(r#"Instance.new("Frame").AutomaticSize = Enum.FillDirection.Vertical"#)
        .unwrap_err()
        .to_string();
    assert!(err.contains("expects an Enum.AutomaticSize"), "{err}");
    assert!(err.contains("got an Enum.FillDirection"), "{err}");
}

#[test]
fn a_number_is_accepted_for_an_enum_only_when_the_enum_has_it() {
    let got: String = eval(
        r#"
        local f = Instance.new("Frame")
        f.AutomaticSize = Enum.AutomaticSize.XY.Value
        return f.AutomaticSize.Name
    "#,
    )
    .expect("eval");
    assert_eq!(got, "XY");

    let err = run(r#"Instance.new("Frame").AutomaticSize = 99"#)
        .unwrap_err()
        .to_string();
    assert!(err.contains("no Enum.AutomaticSize numbered 99"), "{err}");
}

#[test]
fn a_content_property_round_trips() {
    let got: String = eval(
        r#"
        local i = Instance.new("ImageLabel")
        i.ImageContent = Content.fromUri("rbxassetid://12345")
        return i.ImageContent.Uri
    "#,
    )
    .expect("eval");
    assert_eq!(got, "rbxassetid://12345");
}

#[test]
fn a_content_property_accepts_a_plain_string_like_the_engine() {
    let got: String = eval(
        r#"
        local i = Instance.new("ImageLabel")
        i.ImageContent = "rbxassetid://7"
        return i.ImageContent.Uri
    "#,
    )
    .expect("eval");
    assert_eq!(got, "rbxassetid://7");
}

#[test]
fn the_legacy_content_id_property_stays_a_string() {
    let got: String = eval(
        r#"
        local i = Instance.new("ImageLabel")
        i.Image = "rbxassetid://9"
        return typeof(i.Image) .. ":" .. i.Image
    "#,
    )
    .expect("eval");
    assert_eq!(got, "string:rbxassetid://9");
}

#[test]
fn any_well_formed_uri_is_accepted_whatever_its_scheme() {
    for uri in [
        "rbxassetid://1",
        "dew://icon.png",
        "https://example.invalid/a.png",
    ] {
        let got: String = eval(&format!(
            r#"
            local i = Instance.new("ImageLabel")
            i.ImageContent = Content.fromUri("{uri}")
            return i.ImageContent.Uri
        "#
        ))
        .expect("eval");
        assert_eq!(got, uri);
    }
}

#[test]
fn a_font_property_round_trips() {
    let got: (String, u32) = eval(
        r#"
        local t = Instance.new("TextLabel")
        t.FontFace = Font.new("Inter", Enum.FontWeight.Bold)
        return t.FontFace.Family, t.FontFace.Weight
    "#,
    )
    .expect("eval");
    assert_eq!(got.0, "Inter");
    assert_eq!(got.1, 700);
}

#[test]
fn a_vocabulary_value_of_the_wrong_type_is_refused() {
    let err = run(r#"Instance.new("Frame").Size = Vector2.new(1, 2)"#)
        .unwrap_err()
        .to_string();
    assert!(err.contains("expects a UDim2"), "{err}");
}

#[test]
fn parent_builds_a_tree_both_ways() {
    let (lua, dom) = vm();
    lua.load(
        r#"
        local parent = Instance.new("Frame")
        local child = Instance.new("Frame")
        child.Name = "Child"
        child.Parent = parent
        _G.parent, _G.child = parent, child
    "#,
    )
    .exec()
    .expect("exec");

    let guard = dom.lock().expect("dom");
    let d = &guard.world.dom;
    assert_eq!(d.children(0), vec![1]);
    assert_eq!(d.parent_of(1), Some(0));
    assert_eq!(d.name_of(1).expect("child"), "Child");
}

#[test]
fn reparenting_detaches_from_the_old_parent() {
    let (lua, dom) = vm();
    lua.load(
        r#"
        local a, b = Instance.new("Frame"), Instance.new("Frame")
        local child = Instance.new("Frame")
        child.Parent = a
        child.Parent = b
        child.Parent = nil
        _G.a = a
    "#,
    )
    .exec()
    .expect("exec");

    let guard = dom.lock().expect("dom");
    let d = &guard.world.dom;
    assert!(d.children(0).is_empty());
    assert!(d.children(1).is_empty());
    assert_eq!(d.parent_of(2), None);
}

#[test]
fn a_parent_cycle_is_refused() {
    let err = run(r#"
        local a, b = Instance.new("Frame"), Instance.new("Frame")
        b.Parent = a
        a.Parent = b
    "#)
    .unwrap_err()
    .to_string();
    assert!(err.contains("its own ancestor"), "{err}");
}

#[test]
fn an_instance_is_its_own_parent_never() {
    let err = run(r#"
        local a = Instance.new("Frame")
        a.Parent = a
    "#)
    .unwrap_err()
    .to_string();
    assert!(err.contains("its own ancestor"), "{err}");
}

#[test]
fn two_handles_to_one_instance_compare_equal() {
    let got: bool = eval(
        r#"
        local parent = Instance.new("Frame")
        local child = Instance.new("Frame")
        child.Parent = parent
        return child.Parent == parent
    "#,
    )
    .expect("eval");
    assert!(got);
}

#[test]
fn zz_probe_handle_identity() {
    let got: bool = eval(
        r#"
        local parent = Instance.new("Frame")
        local child = Instance.new("Frame")
        child.Parent = parent
        local a = parent:GetChildren()[1]
        local b = parent:GetChildren()[1]
        local t = {}
        t[a] = 1
        return rawequal(a, b) and t[b] == 1
    "#,
    )
    .expect("eval");
    assert!(got, "two reads of one instance are not the same table key");
}

#[test]
fn uigradient_accepts_color_and_transparency_sequences() {
    let ok: bool = eval(
        r#"
        local g = Instance.new("UIGradient")
        g.Color = ColorSequence.new(Color3.new(1, 0, 0), Color3.new(0, 0, 1))
        g.Transparency = NumberSequence.new(0.25, 0.75)
        local cs = g.Color
        local ts = g.Transparency
        return typeof(cs) == "ColorSequence"
            and #cs.Keypoints == 2
            and cs.Keypoints[1].Value == Color3.new(1, 0, 0)
            and typeof(ts) == "NumberSequence"
            and #ts.Keypoints == 2
            and ts.Keypoints[1].Value == 0.25
    "#,
    )
    .expect("eval");
    assert!(ok);
}

#[test]
fn input_action_label_accepts_input_action() {
    let got: String = eval(
        r#"
        local label = Instance.new("InputActionLabel")
        label.InputAction = "Interact"
        return label.InputAction
    "#,
    )
    .expect("eval");
    assert_eq!(got, "Interact");
}

#[test]
fn blending_mode_resolves_through_two_different_guiobject_descendants() {
    let mut catalog = Catalog::load();
    set_enabled_flags(&mut catalog.enabled, &[("FFlagDewGuiObjectBlendingMode", 1)]);
    let (lua, _dom) = vm_with(catalog);
    let result: mlua::Result<Vec<String>> = lua.load(
        r#"
        local frame = Instance.new("Frame")
        frame.BlendingMode = Enum.BlendMode.Additive
        local button = Instance.new("TextButton")
        button.BlendingMode = Enum.BlendMode.Multiply
        return { tostring(frame.BlendingMode), tostring(button.BlendingMode) }
    "#,
    )
    .eval();
    assert_eq!(
        result.expect("eval"),
        vec!["Enum.BlendMode.Additive", "Enum.BlendMode.Multiply"]
    );
}

#[test]
fn blending_mode_is_not_a_member_of_frame_without_its_flag() {
    let err = run(r#"Instance.new("Frame").BlendingMode = 0"#)
        .unwrap_err()
        .to_string();
    assert!(err.contains("BlendingMode"), "{err}");
    assert!(err.contains("not a valid member"), "{err}");
}

// Members.

#[test]
fn the_predicate_answers_for_the_classes_a_guest_holds() {
    assert!(implements("Frame", "GetChildren"));
    assert!(implements("TextButton", "Destroy"));
    assert!(implements("Instance", "IsA"));
    assert!(!implements("Frame", "Clone"));
}

#[test]
fn the_predicate_refuses_what_this_sprint_deferred() {
    for member in [
        "CaptureFocus",
        "ReleaseFocus",
        "IsFocused",
        "Focused",
        "FocusLost",
    ] {
        assert!(!implements("TextBox", member), "{member}");
    }
    for member in ["GetScrollVelocity", "ResetScrollVelocity"] {
        assert!(!implements("ScrollingFrame", member), "{member}");
    }
    for member in [
        "PageEnter",
        "PageLeave",
        "Stopped",
        "Next",
        "Previous",
        "JumpToIndex",
    ] {
        assert!(!implements("UIPageLayout", member), "{member}");
    }
    assert!(!implements("Frame", "WaitForChild"));
}

#[test]
fn the_class_parameter_is_no_longer_vacuous() {
    assert!(implements("TextButton", "Activated"));
    assert!(!implements("Frame", "Activated"));
    assert!(implements("Frame", "MouseEnter"));
    assert!(!implements("UIListLayout", "MouseEnter"));
    assert!(!implements("Folder", "InputBegan"));
    assert!(implements("TextButton", "InputBegan"));
    assert!(implements("TextButton", "GetChildren"));
}

#[test]
fn is_a_walks_the_superclass_chain() {
    let got: Vec<bool> = eval(
        r#"
        local f = Instance.new("Frame")
        return { f:IsA("Frame"), f:IsA("GuiObject"), f:IsA("GuiBase2d"), f:IsA("Instance") }
    "#,
    )
    .expect("eval");
    assert_eq!(got, vec![true, true, true, true]);
}

#[test]
fn is_a_is_false_for_a_sibling_and_for_a_class_below() {
    let got: Vec<bool> = eval(
        r#"
        local f = Instance.new("Frame")
        local label = Instance.new("TextLabel")
        return { f:IsA("TextLabel"), label:IsA("Frame"), Instance.new("Folder"):IsA("Frame") }
    "#,
    )
    .expect("eval");
    assert_eq!(got, vec![false, false, false]);
}

#[test]
fn is_a_answers_false_for_a_class_that_does_not_exist() {
    let got: bool = eval(r#"return Instance.new("Frame"):IsA("Frmae")"#).expect("eval");
    assert!(!got);
}

#[test]
fn get_children_is_in_parent_order_and_one_level_deep() {
    let got: Vec<String> = eval(
        r#"
        local root = Instance.new("Folder")
        for _, name in { "a", "b", "c" } do
            local f = Instance.new("Frame")
            f.Name = name
            f.Parent = root
        end
        local deep = Instance.new("Frame")
        deep.Name = "deep"
        deep.Parent = root:GetChildren()[1]

        local names = {}
        for _, child in root:GetChildren() do
            table.insert(names, child.Name)
        end
        return names
    "#,
    )
    .expect("eval");
    assert_eq!(got, vec!["a", "b", "c"]);
}

#[test]
fn get_descendants_is_depth_first_in_child_order() {
    let got: Vec<String> = eval(
        r#"
        local root = Instance.new("Folder")
        local a = Instance.new("Frame") a.Name = "a" a.Parent = root
        local a1 = Instance.new("Frame") a1.Name = "a1" a1.Parent = a
        local a2 = Instance.new("Frame") a2.Name = "a2" a2.Parent = a
        local b = Instance.new("Frame") b.Name = "b" b.Parent = root

        local names = {}
        for _, d in root:GetDescendants() do
            table.insert(names, d.Name)
        end
        return names
    "#,
    )
    .expect("eval");
    assert_eq!(got, vec!["a", "a1", "a2", "b"]);
}

#[test]
fn an_empty_instance_has_no_children_rather_than_nil() {
    let got: usize = eval(r#"return #Instance.new("Frame"):GetChildren()"#).expect("eval");
    assert_eq!(got, 0);
}

#[test]
fn find_first_child_returns_nil_when_there_is_no_such_child() {
    let got: bool = eval(r#"return Instance.new("Folder"):FindFirstChild("nothing") == nil"#)
        .expect("eval");
    assert!(got);
}

#[test]
fn find_first_child_is_one_level_deep_until_it_is_asked_to_recurse() {
    let got: Vec<bool> = eval(
        r#"
        local root = Instance.new("Folder")
        local mid = Instance.new("Frame") mid.Parent = root
        local deep = Instance.new("Frame") deep.Name = "deep" deep.Parent = mid
        return {
            root:FindFirstChild("deep") == nil,
            root:FindFirstChild("deep", true) == deep,
        }
    "#,
    )
    .expect("eval");
    assert_eq!(got, vec![true, true]);
}

#[test]
fn of_class_matches_exactly_and_which_is_a_matches_the_chain() {
    let got: Vec<bool> = eval(
        r#"
        local root = Instance.new("Folder")
        local label = Instance.new("TextLabel") label.Parent = root
        return {
            root:FindFirstChildOfClass("TextLabel") == label,
            root:FindFirstChildOfClass("GuiObject") == nil,
            root:FindFirstChildWhichIsA("GuiObject") == label,
        }
    "#,
    )
    .expect("eval");
    assert_eq!(got, vec![true, true, true]);
}

#[test]
fn find_first_descendant_reaches_past_the_first_level() {
    let got: bool = eval(
        r#"
        local root = Instance.new("Folder")
        local mid = Instance.new("Frame") mid.Parent = root
        local deep = Instance.new("Frame") deep.Name = "deep" deep.Parent = mid
        return root:FindFirstDescendant("deep") == deep
    "#,
    )
    .expect("eval");
    assert!(got);
}

#[test]
fn the_ancestor_finders_walk_upward_and_stop_at_the_root() {
    let got: Vec<bool> = eval(
        r#"
        local screen = Instance.new("ScreenGui") screen.Name = "DewRoot"
        local frame = Instance.new("Frame") frame.Parent = screen
        local label = Instance.new("TextLabel") label.Parent = frame
        return {
            label:FindFirstAncestor("DewRoot") == screen,
            label:FindFirstAncestorOfClass("Frame") == frame,
            label:FindFirstAncestorWhichIsA("LayerCollector") == screen,
            label:FindFirstAncestor("nothing") == nil,
        }
    "#,
    )
    .expect("eval");
    assert_eq!(got, vec![true, true, true, true]);
}

#[test]
fn ancestry_is_not_reflexive() {
    let got: Vec<bool> = eval(
        r#"
        local root = Instance.new("Folder")
        local child = Instance.new("Frame") child.Parent = root
        return {
            root:IsAncestorOf(child),
            child:IsDescendantOf(root),
            root:IsAncestorOf(root),
            root:IsDescendantOf(root),
            child:IsAncestorOf(root),
        }
    "#,
    )
    .expect("eval");
    assert_eq!(got, vec![true, true, false, false, false]);
}

#[test]
fn ancestry_spans_more_than_one_level() {
    let got: bool = eval(
        r#"
        local root = Instance.new("Folder")
        local mid = Instance.new("Frame") mid.Parent = root
        local leaf = Instance.new("TextLabel") leaf.Parent = mid
        return root:IsAncestorOf(leaf) and leaf:IsDescendantOf(root)
    "#,
    )
    .expect("eval");
    assert!(got);
}

#[test]
fn a_handle_held_across_a_destroy_errors_rather_than_reading_a_stale_value() {
    let message = err(r#"
        local f = Instance.new("Frame")
        f.Name = "gone"
        f:Destroy()
        return f.Name
    "#);
    assert!(message.contains("has been destroyed"), "{message}");

    let message = err(r#"
        local f = Instance.new("Frame")
        f:Destroy()
        f.Visible = false
    "#);
    assert!(message.contains("has been destroyed"), "{message}");
}

#[test]
fn destroy_detaches_from_the_parent() {
    let got: Vec<bool> = eval(
        r#"
        local root = Instance.new("Folder")
        local child = Instance.new("Frame") child.Parent = root
        child:Destroy()
        return { #root:GetChildren() == 0, root:FindFirstChildOfClass("Frame") == nil }
    "#,
    )
    .expect("eval");
    assert_eq!(got, vec![true, true]);
}

#[test]
fn destroy_takes_the_whole_subtree() {
    let message = err(r#"
        local root = Instance.new("Folder")
        local mid = Instance.new("Frame") mid.Parent = root
        local leaf = Instance.new("TextLabel") leaf.Parent = mid
        root:Destroy()
        return leaf.Name
    "#);
    assert!(message.contains("has been destroyed"), "{message}");
}

#[test]
fn a_destroyed_handle_cannot_be_destroyed_again() {
    let message = err(r#"
        local f = Instance.new("Frame")
        f:Destroy()
        f:Destroy()
    "#);
    assert!(message.contains("has been destroyed"), "{message}");
}

#[test]
fn clear_all_children_empties_one_level_and_destroys_what_it_removed() {
    let got: usize = eval(
        r#"
        local root = Instance.new("Folder")
        for _ = 1, 3 do
            Instance.new("Frame").Parent = root
        end
        root:ClearAllChildren()
        return #root:GetChildren()
    "#,
    )
    .expect("eval");
    assert_eq!(got, 0);

    let message = err(r#"
        local root = Instance.new("Folder")
        local child = Instance.new("Frame") child.Parent = root
        root:ClearAllChildren()
        return child.Name
    "#);
    assert!(message.contains("has been destroyed"), "{message}");
}

#[test]
fn calling_a_method_on_a_destroyed_handle_says_so() {
    let message = err(r#"
        local f = Instance.new("Frame")
        f:Destroy()
        return f:GetChildren()
    "#);
    assert!(message.contains("has been destroyed"), "{message}");
}

#[test]
fn a_method_this_host_does_not_implement_is_still_not_a_valid_member() {
    let message = err(r#"return Instance.new("Frame"):Clone()"#);
    assert!(message.contains("not a valid member"), "{message}");
}

#[test]
fn a_method_is_a_value_that_carries_its_receiver() {
    let got: usize = eval(
        r#"
        local root = Instance.new("Folder")
        Instance.new("Frame").Parent = root
        local get = root.GetChildren
        return #get()
    "#,
    )
    .expect("eval");
    assert_eq!(got, 1);
}

// Events.

#[test]
fn typeof_reports_the_engine_names_for_both_types() {
    let got: Vec<String> = eval(
        r#"
        local f = Instance.new("Frame")
        local c = f.Changed:Connect(function() end)
        return { typeof(f.Changed), typeof(c), typeof(f:GetPropertyChangedSignal("Visible")) }
    "#,
    )
    .expect("eval");
    assert_eq!(
        got,
        vec![
            "RBXScriptSignal".to_string(),
            "RBXScriptConnection".to_string(),
            "RBXScriptSignal".to_string(),
        ]
    );
}

#[test]
fn two_reads_of_one_signal_compare_equal() {
    let got: Vec<bool> = eval(
        r#"
        local f = Instance.new("Frame")
        local g = Instance.new("Frame")
        return {
            f.Changed == f.Changed,
            f:GetPropertyChangedSignal("Visible") == f:GetPropertyChangedSignal("Visible"),
            f:GetPropertyChangedSignal("Visible") == f:GetPropertyChangedSignal("ZIndex"),
            f.Changed == g.Changed,
            f.Changed == f.ChildAdded,
        }
    "#,
    )
    .expect("eval");
    assert_eq!(got, vec![true, true, false, false, false]);
}

#[test]
fn wait_says_why_it_is_not_here_rather_than_reading_as_a_typo() {
    let message = err(r#"return Instance.new("Frame").Changed:Wait()"#);
    assert!(message.contains("yields"), "{message}");
    assert!(message.contains("no task scheduler"), "{message}");
}

#[test]
fn changed_fires_with_the_property_name() {
    let got: Vec<String> = eval(
        r#"
        local f = Instance.new("Frame")
        local seen = {}
        f.Changed:Connect(function(property) table.insert(seen, property) end)
        f.Visible = false
        f.Name = "renamed"
        f.ZIndex = 4
        return seen
    "#,
    )
    .expect("eval");
    assert_eq!(got, vec!["Visible", "Name", "ZIndex"]);
}

#[test]
fn assigning_the_same_value_fires_nothing() {
    let got: Vec<usize> = eval(
        r#"
        local f = Instance.new("Frame")
        local n = 0
        f.Changed:Connect(function() n += 1 end)
        f.Visible = true
        f.Name = "Frame"
        f.Size = UDim2.new(0, 10, 0, 10)
        f.Size = UDim2.new(0, 10, 0, 10)
        local afterRepeats = n
        f.Visible = false
        return { afterRepeats, n }
    "#,
    )
    .expect("eval");
    assert_eq!(got, vec![1, 2], "only the real changes fire");
}

#[test]
fn a_property_signal_fires_for_its_property_and_no_other() {
    let got: Vec<usize> = eval(
        r#"
        local t = Instance.new("TextLabel")
        local visible, text = 0, 0
        t:GetPropertyChangedSignal("Visible"):Connect(function() visible += 1 end)
        t:GetPropertyChangedSignal("Text"):Connect(function() text += 1 end)
        t.Text = "hello"
        t.Visible = false
        t.ZIndex = 2
        return { visible, text }
    "#,
    )
    .expect("eval");
    assert_eq!(got, vec![1, 1]);
}

#[test]
fn a_property_signal_is_handed_no_arguments() {
    let got: i64 = eval(
        r##"
        local f = Instance.new("Frame")
        local count = -1
        f:GetPropertyChangedSignal("Visible"):Connect(function(...) count = select("#", ...) end)
        f.Visible = false
        return count
    "##,
    )
    .expect("eval");
    assert_eq!(got, 0);
}

#[test]
fn asking_for_a_signal_on_a_property_that_does_not_exist_is_loud() {
    let message = err(r#"return Instance.new("Frame"):GetPropertyChangedSignal("Visibel")"#);
    assert!(message.contains("Visibel"), "{message}");
    assert!(message.contains("not a valid member"), "{message}");
}

#[test]
fn a_changed_handler_may_set_another_property() {
    let got: String = eval(
        r#"
        local f = Instance.new("TextLabel")
        f:GetPropertyChangedSignal("Visible"):Connect(function()
            f.Text = "reacted"
        end)
        f.Visible = false
        return f.Text
    "#,
    )
    .expect("eval");
    assert_eq!(got, "reacted");
}

#[test]
fn a_changed_handler_may_destroy_the_tree_it_was_told_about() {
    let got: Vec<bool> = eval(
        r#"
        local root = Instance.new("Folder")
        local child = Instance.new("Frame")
        child.Parent = root
        child.Changed:Connect(function()
            child:Destroy()
        end)
        child.Visible = false
        return { #root:GetChildren() == 0, (pcall(function() return child.Name end)) }
    "#,
    )
    .expect("eval");
    assert_eq!(got, vec![true, false]);
}

#[test]
fn a_destroying_handler_may_touch_the_tree() {
    let got: usize = eval(
        r#"
        local root = Instance.new("Folder")
        local a = Instance.new("Frame") a.Name = "a" a.Parent = root
        local b = Instance.new("Frame") b.Name = "b" b.Parent = root
        a.Destroying:Connect(function()
            b.Name = "survivor"
        end)
        a:Destroy()
        return #root:GetChildren()
    "#,
    )
    .expect("eval");
    assert_eq!(got, 1);
}

#[test]
fn handlers_fire_in_connection_order() {
    let got: Vec<i64> = eval(
        r#"
        local f = Instance.new("Frame")
        local seen = {}
        for i = 1, 4 do
            f.Changed:Connect(function() table.insert(seen, i) end)
        end
        f.Visible = false
        return seen
    "#,
    )
    .expect("eval");
    assert_eq!(got, vec![1, 2, 3, 4]);
}

#[test]
fn a_handler_that_disconnects_another_during_a_fire_is_honoured() {
    let got: Vec<i64> = eval(
        r#"
        local f = Instance.new("Frame")
        local seen = {}
        local second
        f.Changed:Connect(function()
            table.insert(seen, 1)
            second:Disconnect()
        end)
        second = f.Changed:Connect(function() table.insert(seen, 2) end)
        f.Changed:Connect(function() table.insert(seen, 3) end)
        f.Visible = false
        return seen
    "#,
    )
    .expect("eval");
    assert_eq!(got, vec![1, 3], "the disconnected handler must not run");
}

#[test]
fn a_handler_that_connects_another_during_a_fire_does_not_call_it_yet() {
    let got: Vec<i64> = eval(
        r#"
        local f = Instance.new("Frame")
        local seen = {}
        f.Changed:Connect(function()
            if #seen == 0 then
                f.Changed:Connect(function() table.insert(seen, 2) end)
            end
            table.insert(seen, 1)
        end)
        f.Visible = false
        local afterFirst = #seen
        f.ZIndex = 3
        return { afterFirst, #seen }
    "#,
    )
    .expect("eval");
    assert_eq!(got, vec![1, 3]);
}

#[test]
fn disconnect_stops_a_handler_and_reads_back_as_disconnected() {
    let got: Vec<bool> = eval(
        r#"
        local f = Instance.new("Frame")
        local fired = false
        local c = f.Changed:Connect(function() fired = true end)
        local before = c.Connected
        c:Disconnect()
        f.Visible = false
        return { before, c.Connected, fired }
    "#,
    )
    .expect("eval");
    assert_eq!(got, vec![true, false, false]);
}

#[test]
fn disconnecting_twice_is_not_an_error() {
    let got: bool = eval(
        r#"
        local f = Instance.new("Frame")
        local c = f.Changed:Connect(function() end)
        c:Disconnect()
        c:Disconnect()
        return c.Connected
    "#,
    )
    .expect("eval");
    assert!(!got);
}

#[test]
fn a_connection_does_not_outlive_its_instance() {
    let got: Vec<bool> = eval(
        r#"
        local root = Instance.new("Folder")
        local child = Instance.new("Frame")
        child.Parent = root
        local fired = false
        local c = child.Changed:Connect(function() fired = true end)
        local before = c.Connected
        child:Destroy()
        c:Disconnect()
        return { before, c.Connected, fired }
    "#,
    )
    .expect("eval");
    assert_eq!(got, vec![true, false, false]);
}

#[test]
fn a_descendants_connections_go_with_the_subtree() {
    let got: bool = eval(
        r#"
        local root = Instance.new("Folder")
        local mid = Instance.new("Frame") mid.Parent = root
        local leaf = Instance.new("TextLabel") leaf.Parent = mid
        local c = leaf.Changed:Connect(function() end)
        root:Destroy()
        return c.Connected
    "#,
    )
    .expect("eval");
    assert!(!got);
}

#[test]
fn connecting_to_a_destroyed_instance_says_so() {
    let message = err(r#"
        local f = Instance.new("Frame")
        local signal = f.Changed
        f:Destroy()
        return signal:Connect(function() end)
    "#);
    assert!(message.contains("has been destroyed"), "{message}");
}

#[test]
fn child_added_and_child_removed_name_the_child() {
    let got: Vec<String> = eval(
        r#"
        local root = Instance.new("Folder")
        local seen = {}
        root.ChildAdded:Connect(function(child) table.insert(seen, "+" .. child.Name) end)
        root.ChildRemoved:Connect(function(child) table.insert(seen, "-" .. child.Name) end)

        local a = Instance.new("Frame") a.Name = "a"
        a.Parent = root
        a.Parent = nil
        a.Parent = root
        a:Destroy()
        return seen
    "#,
    )
    .expect("eval");
    assert_eq!(got, vec!["+a", "-a", "+a", "-a"]);
}

#[test]
fn the_descendant_events_reach_past_one_level_and_carry_the_subtree() {
    let got: Vec<String> = eval(
        r#"
        local root = Instance.new("Folder")
        local added, removing = {}, {}
        root.DescendantAdded:Connect(function(d) table.insert(added, d.Name) end)
        root.DescendantRemoving:Connect(function(d) table.insert(removing, d.Name) end)

        local mid = Instance.new("Frame") mid.Name = "mid"
        local leaf = Instance.new("TextLabel") leaf.Name = "leaf" leaf.Parent = mid
        mid.Parent = root
        mid:Destroy()

        return { table.concat(added, ","), table.concat(removing, ",") }
    "#,
    )
    .expect("eval");
    assert_eq!(got, vec!["mid,leaf".to_string(), "mid,leaf".to_string()]);
}

#[test]
fn a_removal_is_announced_while_the_instance_can_still_be_read() {
    let got: String = eval(
        r#"
        local root = Instance.new("Folder")
        local child = Instance.new("Frame") child.Name = "leaving" child.Parent = root
        local seen = "never ran"
        root.DescendantRemoving:Connect(function(d)
            seen = `{d.Name} under {tostring(d.Parent)}`
        end)
        child:Destroy()
        return seen
    "#,
    )
    .expect("eval");
    assert_eq!(got, "leaving under Folder");
}

#[test]
fn destroying_fires_on_every_node_in_the_subtree() {
    let got: Vec<String> = eval(
        r#"
        local root = Instance.new("Folder") root.Name = "root"
        local mid = Instance.new("Frame") mid.Name = "mid" mid.Parent = root
        local leaf = Instance.new("TextLabel") leaf.Name = "leaf" leaf.Parent = mid
        local seen = {}
        for _, node in { root, mid, leaf } do
            node.Destroying:Connect(function() table.insert(seen, node.Name) end)
        end
        root:Destroy()
        return seen
    "#,
    )
    .expect("eval");
    assert_eq!(got, vec!["root", "mid", "leaf"]);
}

#[test]
fn clear_all_children_announces_each_child() {
    let got: Vec<String> = eval(
        r#"
        local root = Instance.new("Folder")
        local seen = {}
        root.ChildRemoved:Connect(function(child) table.insert(seen, child.Name) end)
        for _, name in { "a", "b", "c" } do
            local f = Instance.new("Frame") f.Name = name f.Parent = root
        end
        root:ClearAllChildren()
        return seen
    "#,
    )
    .expect("eval");
    assert_eq!(got, vec!["a", "b", "c"]);
}

#[test]
fn reparenting_fires_changed_for_parent_after_the_tree_moved() {
    let got: Vec<String> = eval(
        r#"
        local a, b = Instance.new("Folder"), Instance.new("Folder")
        a.Name, b.Name = "a", "b"
        local child = Instance.new("Frame")
        local seen = {}
        child.Changed:Connect(function(property)
            table.insert(seen, `{property}={tostring(child.Parent)}`)
        end)
        child.Parent = a
        child.Parent = b
        return seen
    "#,
    )
    .expect("eval");
    assert_eq!(got, vec!["Parent=a", "Parent=b"]);
}

#[test]
fn a_handler_that_errors_is_reported_and_does_not_fail_the_write() {
    let got: Vec<bool> = eval(
        r#"
        local f = Instance.new("Frame")
        local later = false
        f.Changed:Connect(function() error("this handler is broken") end)
        f.Changed:Connect(function() later = true end)
        f.Visible = false
        return { f.Visible == false, later }
    "#,
    )
    .expect("the write must succeed");
    assert_eq!(got, vec![true, true]);
}

#[test]
fn only_a_real_change_marks_the_tree_dirty() {
    let (lua, dom) = vm();
    lua.load(
        r#"
        _G.f = Instance.new("Frame")
        _G.f.BackgroundTransparency = 0.5
    "#,
    )
    .exec()
    .expect("exec");

    assert!(
        take_dirty(&dom),
        "the build is a change"
    );
    assert!(
        !take_dirty(&dom),
        "and nothing happened since"
    );

    lua.load(r#"_G.f.BackgroundTransparency = 0.5"#)
        .exec()
        .expect("exec");
    assert!(
        !take_dirty(&dom),
        "the same value is not a change"
    );

    lua.load(r#"_G.f.BackgroundTransparency = 0.25"#)
        .exec()
        .expect("exec");
    assert!(take_dirty(&dom), "a new value is");

    lua.load(r#"_G.f:Destroy()"#).exec().expect("exec");
    assert!(take_dirty(&dom), "so is a teardown");
}

// Tags.

#[test]
fn get_service_answers_the_same_object_every_time() {
    let got: bool = eval(
        r#"
        return services:GetService("CollectionService") == services:GetService("CollectionService")
    "#,
    )
    .expect("eval");
    assert!(got);
}

#[test]
fn get_service_refuses_a_name_this_host_does_not_provide() {
    let err = eval::<Value>(r#"return services:GetService("Lighting")"#)
        .expect_err("expected this to fail")
        .to_string();
    assert!(err.contains("Lighting"), "{err}");
}

#[test]
fn a_tag_round_trips_through_get_tagged_and_get_tags_then_clears() {
    let got: (usize, bool, usize, String, usize, usize) = eval(
        r#"
        local CollectionService = services:GetService("CollectionService")
        local f = Instance.new("Frame")
        CollectionService:AddTag(f, "Enemy")

        local tagged = CollectionService:GetTagged("Enemy")
        local tags = CollectionService:GetTags(f)

        CollectionService:RemoveTag(f, "Enemy")

        local taggedAfter = CollectionService:GetTagged("Enemy")
        local tagsAfter = CollectionService:GetTags(f)

        return #tagged, tagged[1] == f, #tags, tags[1], #taggedAfter, #tagsAfter
    "#,
    )
    .expect("eval");
    assert_eq!(got, (1, true, 1, "Enemy".to_string(), 0, 0));
}

#[test]
fn an_unused_tag_reads_as_an_empty_table_not_nil() {
    let got: bool = eval(
        r#"
        local CollectionService = services:GetService("CollectionService")
        local tagged = CollectionService:GetTagged("NothingHoldsThis")
        return type(tagged) == "table" and #tagged == 0
    "#,
    )
    .expect("eval");
    assert!(got);
}

#[test]
fn tagging_twice_and_untagging_an_absent_tag_are_both_no_ops() {
    let got: (usize, bool) = eval(
        r#"
        local CollectionService = services:GetService("CollectionService")
        local f = Instance.new("Frame")
        local adds = 0
        CollectionService:GetInstanceAddedSignal("Enemy"):Connect(function() adds += 1 end)

        CollectionService:AddTag(f, "Enemy")
        CollectionService:AddTag(f, "Enemy")

        -- Never held, and removing it must not error.
        CollectionService:RemoveTag(f, "NeverHeld")

        return adds, CollectionService:HasTag(f, "Enemy")
    "#,
    )
    .expect("eval");
    assert_eq!(got, (1, true));
}

#[test]
fn added_and_removed_signals_fire_in_order_and_after_the_mutation_is_visible() {
    let got: (String, String, bool, bool) = eval(
        r#"
        local CollectionService = services:GetService("CollectionService")
        local f = Instance.new("Frame")
        local order = {}
        local hadTagWhenAdded, hadTagWhenRemoved

        CollectionService:GetInstanceAddedSignal("Enemy"):Connect(function(inst)
            table.insert(order, "added")
            hadTagWhenAdded = CollectionService:HasTag(inst, "Enemy")
        end)
        CollectionService:GetInstanceRemovedSignal("Enemy"):Connect(function(inst)
            table.insert(order, "removed")
            hadTagWhenRemoved = CollectionService:HasTag(inst, "Enemy")
        end)

        CollectionService:AddTag(f, "Enemy")
        CollectionService:RemoveTag(f, "Enemy")

        return order[1], order[2], hadTagWhenAdded, hadTagWhenRemoved
    "#,
    )
    .expect("eval");
    assert_eq!(
        got,
        ("added".to_string(), "removed".to_string(), true, false)
    );
}

#[test]
fn destroying_a_tagged_instance_fires_instance_removed_and_clears_the_tag() {
    let got: (String, usize) = eval(
        r#"
        local CollectionService = services:GetService("CollectionService")
        local f = Instance.new("Frame")
        CollectionService:AddTag(f, "Enemy")

        local seen = "none"
        CollectionService:GetInstanceRemovedSignal("Enemy"):Connect(function()
            seen = "removed"
        end)

        f:Destroy()

        return seen, #CollectionService:GetTagged("Enemy")
    "#,
    )
    .expect("eval");
    assert_eq!(got, ("removed".to_string(), 0));
}

#[test]
fn tagging_and_untagging_mark_the_tree_dirty() {
    let (lua, dom) = vm();

    lua.load(
        r#"
        CollectionService = services:GetService("CollectionService")
        frame = Instance.new("Frame")
    "#,
    )
    .exec()
    .expect("setup");
    take_dirty(&dom);

    lua.load(r#"CollectionService:AddTag(frame, "Enemy")"#)
        .exec()
        .expect("add tag");
    assert!(
        take_dirty(&dom),
        "AddTag should mark the tree dirty"
    );

    lua.load(r#"CollectionService:RemoveTag(frame, "Enemy")"#)
        .exec()
        .expect("remove tag");
    assert!(
        take_dirty(&dom),
        "RemoveTag should mark the tree dirty"
    );
}

// Enumerations.

#[test]
fn the_three_levels_report_their_own_names_to_typeof() {
    for (expression, expected) in [
        ("Enum", "Enums"),
        ("Enum.AutomaticSize", "Enum"),
        ("Enum.AutomaticSize.Y", "EnumItem"),
    ] {
        let got: String = enum_eval(&format!("return typeof({expression})")).expect("eval");
        assert_eq!(got, expected, "typeof({expression})");
    }
}

#[test]
fn an_item_carries_its_name_value_and_type() {
    let got: (String, u32, String) = enum_eval(
        r#"
        local item = Enum.AutomaticSize.Y
        return item.Name, item.Value, tostring(item.EnumType)
    "#,
    )
    .expect("eval");
    assert_eq!(got.0, "Y");
    assert_eq!(got.2, "AutomaticSize");
    assert_eq!(got.1, Catalog::load().item_by_value("AutomaticSize", got.1).unwrap().value);
}

#[test]
fn tostring_matches_the_engine_shape() {
    let got: String = enum_eval("return tostring(Enum.FillDirection.Vertical)").expect("eval");
    assert_eq!(got, "Enum.FillDirection.Vertical");
}

#[test]
fn two_references_to_one_member_compare_equal() {
    let got: bool = enum_eval("return Enum.AutomaticSize.Y == Enum.AutomaticSize.Y").expect("eval");
    assert!(got);
}

#[test]
fn members_of_different_enums_are_not_equal() {
    let got: bool =
        enum_eval("return Enum.AutomaticSize.X == Enum.FillDirection.Vertical").expect("eval");
    assert!(!got);
}

#[test]
fn a_misspelled_member_is_named_rather_than_nil() {
    let err = enum_vm()
        .load("return Enum.AutomaticSize.Both")
        .exec()
        .unwrap_err()
        .to_string();
    assert!(err.contains("Both"), "{err}");
    assert!(err.contains("AutomaticSize"), "{err}");
}

#[test]
fn a_misspelled_enum_is_named_rather_than_nil() {
    let err = enum_vm()
        .load("return Enum.AutomaticSizes")
        .exec()
        .unwrap_err()
        .to_string();
    assert!(err.contains("AutomaticSizes"), "{err}");
    assert!(err.contains("does not exist"), "{err}");
}

#[test]
fn get_enum_items_returns_every_member_in_value_order() {
    let got: Vec<String> = enum_eval(
        r#"
        local names = {}
        for _, item in ipairs(Enum.AutomaticSize:GetEnumItems()) do
            table.insert(names, item.Name)
        end
        return names
    "#,
    )
    .expect("eval");
    assert_eq!(got, vec!["None", "X", "Y", "XY"]);
}

// Content and fonts.

#[test]
fn content_and_font_report_their_own_names_to_typeof() {
    for (expression, expected) in [
        (r#"Content.fromUri("rbxassetid://1")"#, "Content"),
        ("Content.none", "Content"),
        (r#"Font.new("Inter")"#, "Font"),
    ] {
        let got: String = content_eval(&format!("return typeof({expression})")).expect("eval");
        assert_eq!(got, expected, "typeof({expression})");
    }
}

#[test]
fn a_content_carries_its_uri_and_source_type() {
    let got: (String, String) = content_eval(
        r#"
        local c = Content.fromUri("rbxassetid://12345")
        return c.Uri, c.SourceType
    "#,
    )
    .expect("eval");
    assert_eq!(got.0, "rbxassetid://12345");
    assert_eq!(got.1, "Uri");
}

#[test]
fn an_empty_content_has_no_uri() {
    let got: (Option<String>, String) =
        content_eval("return Content.none.Uri, Content.none.SourceType").expect("eval");
    assert_eq!(got.0, None);
    assert_eq!(got.1, "None");
}

#[test]
fn a_plain_string_is_a_content() {
    let value = content_from(&guest_of(&Value::Nil));
    assert!(value.is_none());

    let lua = content_vm();
    let text = lua.create_string("rbxassetid://7").expect("string");
    let got = content_from(&guest_of(&Value::String(text))).expect("coerced");
    assert_eq!(uri_of(&got).as_deref(), Some("rbxassetid://7"));
}

#[test]
fn an_empty_string_is_the_empty_content_rather_than_an_empty_uri() {
    let lua = content_vm();
    let text = lua.create_string("").expect("string");
    let got = content_from(&guest_of(&Value::String(text))).expect("coerced");
    assert!(got.matches(&Content::Empty));
}

#[test]
fn a_font_defaults_its_weight_and_style() {
    let got: (String, u32, u32) = content_eval(
        r#"
        local f = Font.new("Inter")
        return f.Family, f.Weight, f.Style
    "#,
    )
    .expect("eval");
    assert_eq!(got.0, "Inter");
    assert_eq!(got.1, 400);
    assert_eq!(got.2, 0);
}

#[test]
fn a_font_takes_enum_members_for_weight_and_style() {
    let got: (u32, u32, bool) = content_eval(
        r#"
        local f = Font.new("Inter", Enum.FontWeight.Bold, Enum.FontStyle.Italic)
        return f.Weight, f.Style, f.Bold
    "#,
    )
    .expect("eval");
    assert_eq!(got.0, 700);
    assert_eq!(got.1, 1);
    assert!(got.2);
}

#[test]
fn a_font_refuses_a_member_of_the_wrong_enum() {
    let err = content_vm()
        .load(r#"return Font.new("Inter", Enum.FontStyle.Italic)"#)
        .exec()
        .unwrap_err()
        .to_string();
    assert!(err.contains("expects an Enum.FontWeight"), "{err}");
    assert!(err.contains("got an Enum.FontStyle"), "{err}");
}

#[test]
fn a_font_weight_the_enum_does_not_have_is_refused() {
    let err = content_vm()
        .load(r#"return Font.new("Inter", 450)"#)
        .exec()
        .unwrap_err()
        .to_string();
    assert!(err.contains("no Enum.FontWeight numbered 450"), "{err}");
}

// Values.

#[test]
fn each_type_reports_its_own_name_to_typeof() {
    for (expression, expected) in [
        ("UDim.new(0, 1)", "UDim"),
        ("UDim2.new(0, 1, 0, 2)", "UDim2"),
        ("Vector2.new(1, 2)", "Vector2"),
        ("Color3.new(1, 0, 0)", "Color3"),
        ("Rect.new(0, 0, 1, 1)", "Rect"),
    ] {
        let got: String = value_eval(&format!("return typeof({expression})")).expect("eval");
        assert_eq!(got, expected, "typeof({expression})");
    }
}

#[test]
fn a_udim2_reads_back_its_parts() {
    let got: Vec<f64> = value_eval(
        r#"
        local size = UDim2.new(0.5, 10, 0.25, 20)
        return { size.X.Scale, size.X.Offset, size.Y.Scale, size.Y.Offset }
    "#,
    )
    .expect("eval");
    assert_eq!(got, vec![0.5, 10.0, 0.25, 20.0]);
}

#[test]
fn udim2_accepts_two_udims_as_well_as_four_numbers() {
    let same: bool = value_eval(
        r#"
        return UDim2.new(UDim.new(0.5, 10), UDim.new(0.25, 20))
            == UDim2.new(0.5, 10, 0.25, 20)
    "#,
    )
    .expect("eval");
    assert!(same);
}

#[test]
fn width_and_height_alias_x_and_y() {
    let same: bool = value_eval(
        r#"
        local s = UDim2.new(0.5, 10, 0.25, 20)
        return s.Width == s.X and s.Height == s.Y
    "#,
    )
    .expect("eval");
    assert!(same);
}

#[test]
fn from_scale_and_from_offset_are_the_shorthands_they_look_like() {
    let ok: bool = value_eval(
        r#"
        return UDim2.fromScale(1, 0.5) == UDim2.new(1, 0, 0.5, 0)
           and UDim2.fromOffset(30, 40) == UDim2.new(0, 30, 0, 40)
    "#,
    )
    .expect("eval");
    assert!(ok);
}

#[test]
fn from_rgb_converts_to_the_engine_range() {
    let got: f32 = value_eval("return Color3.fromRGB(255, 0, 0).R").expect("eval");
    assert_eq!(got, 1.0);
    let got: f32 = value_eval("return Color3.fromRGB(51, 0, 0).R").expect("eval");
    assert!((got - 0.2).abs() < 1e-6, "{got}");
}

#[test]
fn a_fractional_offset_truncates_towards_zero_the_way_the_engine_does() {
    let got: i32 = value_eval("return UDim.new(0, 10.7).Offset").expect("eval");
    assert_eq!(got, 10);
    let got: i32 = value_eval("return UDim2.fromOffset(0, 8.7138671875).Y.Offset").expect("eval");
    assert_eq!(got, 8);
    let got: i32 = value_eval("return UDim.new(0, -2.5).Offset").expect("eval");
    assert_eq!(got, -2);
    let got: i32 = value_eval("return UDim2.new(0, 1.9, 0, -1.9).X.Offset").expect("eval");
    assert_eq!(got, 1);
}

#[test]
fn an_int32_property_still_refuses_a_fraction() {
    let (lua, _dom) = vm();
    let err = lua
        .load(r#"Instance.new("Frame").ZIndex = 1.5"#)
        .exec()
        .unwrap_err()
        .to_string();
    assert!(err.contains("whole number"), "{err}");
}

#[test]
fn the_vocabulary_answers_every_name_aether_requires() {
    for expression in [
        "UDim.new(0, 1)",
        "UDim2.new(0, 1, 0, 2)",
        "UDim2.fromScale(1, 1)",
        "UDim2.fromOffset(1, 1)",
        "Vector2.new(1, 1)",
        "Vector2.zero",
        "Vector2.one",
        "Color3.new(1, 1, 1)",
        "Color3.fromRGB(255, 255, 255)",
        "Color3.fromHex(\"#FFFFFF\")",
        "Color3.fromHSV(0.5, 0.5, 0.5)",
        "Rect.new(0, 0, 1, 1)",
        "Font.new(\"SourceSans\")",
        "NumberSequence.new(0, 1)",
        "NumberSequenceKeypoint.new(0, 1)",
        "ColorSequence.new(Color3.new(1, 1, 1))",
        "ColorSequenceKeypoint.new(0, Color3.new(1, 1, 1))",
    ] {
        let got: bool = value_eval(&format!("return ({expression}) ~= nil"))
            .unwrap_or_else(|e| panic!("{expression}: {e}"));
        assert!(got, "{expression} answered nil");
    }
}

#[test]
fn from_hex_accepts_both_lengths_and_refuses_anything_else() {
    let got: f32 = value_eval("return Color3.fromHex(\"#FF0000\").R").expect("eval");
    assert_eq!(got, 1.0);
    let got: f32 = value_eval("return Color3.fromHex(\"F00\").R").expect("eval");
    assert_eq!(got, 1.0);
    let got: f32 = value_eval("return Color3.fromHex(\"#888888\").G").expect("eval");
    assert!((got - 0.5333).abs() < 1e-3, "{got}");
    let err = value_vm()
        .load("return Color3.fromHex(\"#GGGGGG\")")
        .exec()
        .unwrap_err()
        .to_string();
    assert!(err.contains("hexadecimal"), "{err}");
    let err = value_vm()
        .load("return Color3.fromHex(\"#FFFF\")")
        .exec()
        .unwrap_err()
        .to_string();
    assert!(err.contains("#RRGGBB"), "{err}");
}

#[test]
fn a_font_reports_its_weight_as_an_enum_item() {
    let lua = Lua::new();
    let dom = shared(Catalog::load());
    install_values(&lua, &dom).expect("vocabulary");
    install_enums(&lua, &dom).expect("enums");
    let ok: bool = lua
        .load(
            r#"
            local f = Font.new("SourceSans", Enum.FontWeight.Bold, Enum.FontStyle.Italic)
            return f.Family == "SourceSans"
                and f.Weight == Enum.FontWeight.Bold
                and f.Style == Enum.FontStyle.Italic
                and f.Bold == true
                and typeof(f) == "Font"
        "#,
        )
        .eval()
        .expect("eval");
    assert!(ok);
}

#[test]
fn a_sequence_carries_its_keypoints() {
    let ok: bool = value_eval(
        r#"
        local n = NumberSequence.new(0, 1)
        local c = ColorSequence.new(Color3.new(1, 0, 0), Color3.new(0, 0, 1))
        return #n.Keypoints == 2
            and n.Keypoints[1].Time == 0 and n.Keypoints[2].Value == 1
            and #c.Keypoints == 2
            and c.Keypoints[2].Value == Color3.new(0, 0, 1)
            and typeof(n) == "NumberSequence"
            and typeof(c.Keypoints[1]) == "ColorSequenceKeypoint"
    "#,
    )
    .expect("eval");
    assert!(ok);
}

#[test]
fn udim2_arithmetic_is_componentwise() {
    let ok: bool = value_eval(
        r#"
        local a = UDim2.new(0.5, 10, 0.25, 20)
        local b = UDim2.new(0.5, 5, 0.25, 5)
        return (a + b) == UDim2.new(1, 15, 0.5, 25)
           and (a - b) == UDim2.new(0, 5, 0, 15)
    "#,
    )
    .expect("eval");
    assert!(ok);
}

#[test]
fn adding_a_udim2_to_something_else_is_an_error() {
    let err = value_vm()
        .load("return UDim2.new() + 3")
        .exec()
        .unwrap_err()
        .to_string();
    assert!(err.contains("can only be added to a UDim2"), "{err}");
}

#[test]
fn a_vector2_scales_by_a_number() {
    let ok: bool = value_eval("return Vector2.new(2, 3) * 2 == Vector2.new(4, 6)").expect("eval");
    assert!(ok);
}

#[test]
fn a_rect_reports_its_extent() {
    let got: Vec<f32> = value_eval(
        r#"
        local r = Rect.new(10, 20, 40, 60)
        return { r.Min.X, r.Min.Y, r.Width, r.Height }
    "#,
    )
    .expect("eval");
    assert_eq!(got, vec![10.0, 20.0, 30.0, 40.0]);
}

#[test]
fn a_value_of_a_different_vocabulary_type_is_not_equal() {
    let equal: bool = value_eval("return Vector2.new(1, 2) == UDim2.new(1, 2, 0, 0)").expect("eval");
    assert!(!equal);
}

// What is drawn.

#[test]
fn a_clipping_parent_passes_its_corner_radius_to_its_children() {
    let f = render(
        r#"
        local card = Instance.new("Frame")
        card.Size = UDim2.new(0, 120, 0, 60)
        card.ClipsDescendants = true
        card.Parent = root
        local corner = Instance.new("UICorner")
        corner.CornerRadius = UDim.new(0, 14)
        corner.Parent = card
        local bar = Instance.new("Frame")
        bar.Size = UDim2.new(1, 0, 0, 20)
        bar.Parent = card
    "#,
        200.0,
        100.0,
    );
    let bar = f
        .nodes
        .iter()
        .find(|n| n.rect.h == 20.0)
        .expect("the titlebar is in the display list");
    assert_eq!(
        bar.clip_radius, 14.0,
        "the clip radius did not reach the child"
    );
    let card = f
        .nodes
        .iter()
        .find(|n| n.rect.h == 60.0)
        .expect("the card is in the display list");
    assert_eq!(card.clip_radius, 0.0);
}

#[test]
fn text_transparency_reaches_the_display_list() {
    let f = render(
        r#"
        local t = Instance.new("TextLabel")
        t.Size = UDim2.new(0, 100, 0, 20)
        t.Text = "hello"
        t.TextTransparency = 0.25
        t.Parent = root
    "#,
        200.0,
        100.0,
    );
    assert_eq!(f.nodes.len(), 1);
    assert!(
        (f.nodes[0].text_alpha - 0.75).abs() < 0.001,
        "text_alpha was {}",
        f.nodes[0].text_alpha
    );
}

#[test]
fn text_with_no_transparency_is_solid() {
    let f = render(
        r#"
        local t = Instance.new("TextLabel")
        t.Size = UDim2.new(0, 100, 0, 20)
        t.Text = "hello"
        t.Parent = root
    "#,
        200.0,
        100.0,
    );
    assert_eq!(f.nodes[0].text_alpha, 1.0);
}

#[test]
fn a_list_layout_centres_its_children_on_the_cross_axis() {
    let f = render(
        r#"
        local panel = Instance.new("Frame")
        panel.Size = UDim2.new(0, 200, 0, 100)
        panel.Parent = root
        local layout = Instance.new("UIListLayout")
        layout.HorizontalAlignment = Enum.HorizontalAlignment.Center
        layout.Parent = panel
        local row = Instance.new("Frame")
        row.Size = UDim2.new(0, 100, 0, 20)
        row.Parent = panel
    "#,
        200.0,
        100.0,
    );
    let row = f
        .nodes
        .iter()
        .find(|n| n.rect.w == 100.0 && n.rect.h == 20.0)
        .expect("the row is in the display list");
    assert_eq!(row.rect.x, 50.0, "row was not centred");
}

#[test]
fn a_list_layout_defaults_to_the_start_of_the_cross_axis() {
    let f = render(
        r#"
        local panel = Instance.new("Frame")
        panel.Size = UDim2.new(0, 200, 0, 100)
        panel.Parent = root
        local layout = Instance.new("UIListLayout")
        layout.Parent = panel
        local row = Instance.new("Frame")
        row.Size = UDim2.new(0, 100, 0, 20)
        row.Parent = panel
    "#,
        200.0,
        100.0,
    );
    let row = f
        .nodes
        .iter()
        .find(|n| n.rect.w == 100.0 && n.rect.h == 20.0)
        .expect("the row is in the display list");
    assert_eq!(
        row.rect.x, 0.0,
        "an unset alignment should not move a child"
    );
}

#[test]
fn offset_and_scale_resolve_against_the_parent() {
    let f = render(
        r#"
        local a = Instance.new("Frame")
        a.Size = UDim2.new(0.5, 10, 0, 40)
        a.Position = UDim2.new(0, 20, 0.5, 0)
        a.Parent = root
    "#,
        200.0,
        100.0,
    );
    assert_eq!(f.nodes.len(), 1);
    let r = f.nodes[0].rect;
    assert_eq!((r.x, r.y, r.w, r.h), (20.0, 50.0, 110.0, 40.0));
}

#[test]
fn anchor_point_shifts_by_a_fraction_of_the_resolved_size() {
    let f = render(
        r#"
        local a = Instance.new("Frame")
        a.Size = UDim2.new(0, 80, 0, 40)
        a.Position = UDim2.new(0.5, 0, 0.5, 0)
        a.AnchorPoint = Vector2.new(0.5, 0.5)
        a.Parent = root
    "#,
        200.0,
        100.0,
    );
    let r = f.nodes[0].rect;
    assert_eq!((r.x, r.y), (60.0, 30.0));
}

#[test]
fn a_child_resolves_against_its_parent_not_the_surface() {
    let f = render(
        r#"
        local a = Instance.new("Frame")
        a.Size = UDim2.new(0, 100, 0, 100)
        a.Position = UDim2.new(0, 50, 0, 0)
        a.Parent = root
        local b = Instance.new("Frame")
        b.Size = UDim2.new(0.5, 0, 0.5, 0)
        b.Parent = a
    "#,
        200.0,
        200.0,
    );
    let child = f.nodes.iter().find(|n| n.rect.w == 50.0).expect("child");
    assert_eq!((child.rect.x, child.rect.y), (50.0, 0.0));
}

#[test]
fn an_invisible_element_hides_its_subtree() {
    let f = render(
        r#"
        local a = Instance.new("Frame")
        a.Size = UDim2.new(0, 10, 0, 10)
        a.Visible = false
        a.Parent = root
        local b = Instance.new("Frame")
        b.Size = UDim2.new(0, 10, 0, 10)
        b.Parent = a
    "#,
        100.0,
        100.0,
    );
    assert!(f.nodes.is_empty());
}

#[test]
fn a_zero_area_element_is_absent_but_still_positions_its_children() {
    let f = render(
        r#"
        local a = Instance.new("Frame")
        a.Size = UDim2.new(0, 0, 0, 0)
        a.Position = UDim2.new(0, 30, 0, 30)
        a.Parent = root
        local b = Instance.new("Frame")
        b.Size = UDim2.new(0, 10, 0, 10)
        b.Parent = a
    "#,
        100.0,
        100.0,
    );
    assert_eq!(f.nodes.len(), 1);
    assert_eq!((f.nodes[0].rect.x, f.nodes[0].rect.y), (30.0, 30.0));
}

#[test]
fn zindex_decides_paint_order_over_declaration() {
    let f = render(
        r#"
        local function box(name, z)
            local n = Instance.new("Frame")
            n.Name = name
            n.Size = UDim2.new(0, 10, 0, 10)
            n.ZIndex = z
            n.Parent = root
        end
        box("last", 1)
        box("first", 5)
    "#,
        100.0,
        100.0,
    );
    let order: Vec<&str> = f.nodes.iter().map(|n| n.name.as_str()).collect();
    assert_eq!(order, vec!["last", "first"]);
}

#[test]
fn a_modifier_is_a_property_of_its_parent_and_not_a_rectangle() {
    let f = render(
        r#"
        local a = Instance.new("Frame")
        a.Size = UDim2.new(0, 10, 0, 10)
        a.Parent = root
        local c = Instance.new("UICorner")
        c.CornerRadius = UDim.new(0, 14)
        c.Parent = a
    "#,
        100.0,
        100.0,
    );
    assert_eq!(f.nodes.len(), 1, "the UICorner must not be drawn");
    assert_eq!(f.nodes[0].radius, 14.0);
}

#[test]
fn transparency_is_inverted_into_alpha() {
    let f = render(
        r#"
        local a = Instance.new("Frame")
        a.Size = UDim2.new(0, 10, 0, 10)
        a.BackgroundTransparency = 0.25
        a.Parent = root
    "#,
        100.0,
        100.0,
    );
    assert_eq!(f.nodes[0].alpha, 0.75);
}

#[test]
fn a_colour_reaches_the_display_list_as_bytes() {
    let f = render(
        r#"
        local a = Instance.new("Frame")
        a.Size = UDim2.new(0, 10, 0, 10)
        a.BackgroundColor3 = Color3.fromRGB(18, 23, 34)
        a.Parent = root
    "#,
        100.0,
        100.0,
    );
    assert_eq!(f.nodes[0].fill, Some(Rgb(18, 23, 34)));
}

#[test]
fn text_reaches_the_display_list_only_from_a_text_class() {
    let f = render(
        r#"
        local t = Instance.new("TextLabel")
        t.Size = UDim2.new(0, 80, 0, 20)
        t.Text = "hello"
        t.TextSize = 18
        t.Parent = root
    "#,
        100.0,
        100.0,
    );
    assert_eq!(f.nodes[0].text.as_deref(), Some("hello"));
    assert_eq!(f.nodes[0].text_size, 18.0);
}

#[test]
fn clips_descendants_carries_a_clip_to_the_children() {
    let f = render(
        r#"
        local a = Instance.new("Frame")
        a.Size = UDim2.new(0, 50, 0, 50)
        a.ClipsDescendants = true
        a.Parent = root
        local b = Instance.new("Frame")
        b.Size = UDim2.new(0, 200, 0, 200)
        b.Parent = a
    "#,
        100.0,
        100.0,
    );
    let child = f.nodes.iter().find(|n| n.rect.w == 200.0).expect("child");
    let clip = child.clip.expect("clipped");
    assert_eq!((clip.w, clip.h), (50.0, 50.0));
    assert!(
        f.nodes[0].clip.is_none(),
        "the clipper itself is not clipped"
    );
}

#[test]
fn ui_padding_insets_children() {
    let f = render(
        r#"
        local a = Instance.new("Frame")
        a.Size = UDim2.new(0, 100, 0, 100)
        a.Parent = root

        local pad = Instance.new("UIPadding")
        pad.PaddingLeft = UDim.new(0, 10)
        pad.PaddingTop = UDim.new(0, 15)
        pad.PaddingRight = UDim.new(0, 20)
        pad.PaddingBottom = UDim.new(0, 25)
        pad.Parent = a

        local b = Instance.new("Frame")
        b.Size = UDim2.new(1, 0, 1, 0)
        b.Parent = a
    "#,
        200.0,
        200.0,
    );
    let parent = f.nodes.iter().find(|n| n.rect.w == 100.0).expect("parent");
    assert_eq!(parent.rect.x, 0.0);
    assert_eq!(parent.rect.y, 0.0);
    assert_eq!(parent.rect.w, 100.0);
    assert_eq!(parent.rect.h, 100.0);

    let child = f.nodes.iter().find(|n| n.rect.w == 70.0).expect("child");
    assert_eq!(child.rect.x, 10.0);
    assert_eq!(child.rect.y, 15.0);
    assert_eq!(child.rect.w, 70.0);
    assert_eq!(child.rect.h, 60.0);
}

#[test]
fn image_content_wins_when_a_guest_sets_both() {
    let f = render(
        r#"
        local i = Instance.new("ImageLabel")
        i.Size = UDim2.new(0, 10, 0, 10)
        i.Image = "mod://old.png"
        i.ImageContent = Content.fromUri("mod://new.png")
        i.Parent = root
    "#,
        50.0,
        50.0,
    );
    let image = f.nodes[0].image.as_ref().expect("image");
    assert_eq!(image.uri, "mod://new.png");
}

#[test]
fn image_colour_and_transparency_reach_the_display_list() {
    let f = render(
        r#"
        local i = Instance.new("ImageLabel")
        i.Size = UDim2.new(0, 10, 0, 10)
        i.ImageContent = Content.fromUri("mod://dot.png")
        i.ImageColor3 = Color3.fromRGB(240, 186, 96)
        i.ImageTransparency = 0.25
        i.Parent = root
    "#,
        50.0,
        50.0,
    );
    let image = f.nodes[0].image.as_ref().expect("image");
    assert_eq!(image.tint, Some(Rgb(240, 186, 96)));
    assert_eq!(image.alpha, 0.75);
}

#[test]
fn a_rect_offset_and_size_become_the_source_rectangle() {
    let f = render(
        r#"
        local i = Instance.new("ImageLabel")
        i.Size = UDim2.new(0, 10, 0, 10)
        i.ImageContent = Content.fromUri("mod://sheet.png")
        i.ImageRectOffset = Vector2.new(8, 4)
        i.ImageRectSize = Vector2.new(16, 16)
        i.Parent = root
    "#,
        50.0,
        50.0,
    );
    let source = f.nodes[0]
        .image
        .as_ref()
        .expect("image")
        .source
        .expect("a source rectangle");
    assert_eq!(
        (source.x, source.y, source.w, source.h),
        (8.0, 4.0, 16.0, 16.0)
    );
}

#[test]
fn an_unset_rect_size_means_the_whole_image_rather_than_none_of_it() {
    let f = render(
        r#"
        local i = Instance.new("ImageLabel")
        i.Size = UDim2.new(0, 10, 0, 10)
        i.ImageContent = Content.fromUri("mod://dot.png")
        i.Parent = root
    "#,
        50.0,
        50.0,
    );
    assert!(f.nodes[0].image.as_ref().expect("image").source.is_none());
}

#[test]
fn the_three_scale_types_that_are_drawn_arrive_as_themselves() {
    for (member, expected) in [
        ("Stretch", Scale::Stretch),
        ("Fit", Scale::Fit),
        ("Crop", Scale::Crop),
    ] {
        let f = render(
            &format!(
                r#"
                local i = Instance.new("ImageLabel")
                i.Size = UDim2.new(0, 10, 0, 10)
                i.ImageContent = Content.fromUri("mod://dot.png")
                i.ScaleType = Enum.ScaleType.{member}
                i.Parent = root
            "#
            ),
            50.0,
            50.0,
        );
        assert_eq!(
            f.nodes[0].image.as_ref().expect("image").scale,
            expected,
            "Enum.ScaleType.{member}"
        );
    }
}

#[test]
fn a_scale_type_this_pass_cannot_draw_falls_back_to_stretch() {
    for member in ["Slice", "Tile"] {
        let f = render(
            &format!(
                r#"
                local i = Instance.new("ImageLabel")
                i.Size = UDim2.new(0, 10, 0, 10)
                i.ImageContent = Content.fromUri("mod://dot.png")
                i.ScaleType = Enum.ScaleType.{member}
                i.Parent = root
            "#
            ),
            50.0,
            50.0,
        );
        assert_eq!(
            f.nodes[0].image.as_ref().expect("image").scale,
            Scale::Stretch,
            "Enum.ScaleType.{member}"
        );
    }
}

#[test]
fn an_element_that_names_no_image_carries_none_at_all() {
    let f = render(
        r#"
        local i = Instance.new("ImageLabel")
        i.Size = UDim2.new(0, 10, 0, 10)
        i.BackgroundColor3 = Color3.fromRGB(1, 2, 3)
        i.Parent = root
    "#,
        50.0,
        50.0,
    );
    assert!(f.nodes[0].image.is_none());
    assert_eq!(f.nodes[0].fill, Some(Rgb(1, 2, 3)));
}

#[test]
fn only_the_classes_that_draw_images_get_one() {
    let f = render(
        r#"
        local f = Instance.new("Frame")
        f.Size = UDim2.new(0, 10, 0, 10)
        f.Parent = root
        assert(pcall(function()
            f.Image = "mod://dot.png"
        end) == false, "a Frame has no Image property")
    "#,
        50.0,
        50.0,
    );
    assert!(f.nodes[0].image.is_none());
}

#[test]
fn absolute_position_and_size_become_readable_to_the_guest() {
    let (lua, dom, root) = rooted("Folder", "Root");
    lua.load(
        r#"
        a = Instance.new("Frame")
        a.Size = UDim2.new(0.5, 0, 0, 40)
        a.Position = UDim2.new(0, 20, 0, 10)
        a.Parent = root
    "#,
    )
    .exec()
    .expect("guest");

    let _ = shoot(&dom, root, 200.0, 100.0);

    let read: Vec<f32> = lua
        .load("return { a.AbsolutePosition.X, a.AbsolutePosition.Y, a.AbsoluteSize.X }")
        .eval()
        .expect("read back");
    assert_eq!(read, vec![20.0, 10.0, 100.0]);
}

#[test]
fn unmeasurable_axis_keeps_authored_size_and_reports() {
    let f = render(
        r#"
        local a = Instance.new("Frame")
        a.Name = "Auto"
        a.Size = UDim2.new(0, 30, 0, 40)
        a.AutomaticSize = Enum.AutomaticSize.X
        a.Parent = root

        local s = Instance.new("Frame")
        s.Name = "Scaled"
        s.Size = UDim2.fromScale(1, 1)
        s.Parent = a
    "#,
        200.0,
        200.0,
    );
    let auto = f.nodes.iter().find(|n| n.name == "Auto").expect("auto");
    assert_eq!(auto.rect.w, 30.0, "keeps authored width");
    assert_eq!(auto.rect.h, 40.0, "keeps authored height");
}

#[test]
fn input_action_label_reaches_the_display_list() {
    let f = render(
        r#"
        local a = Instance.new("InputActionLabel")
        a.Name = "Prompt"
        a.Size = UDim2.new(0, 60, 0, 24)
        a.InputAction = "Jump"
        a.TextSize = 16
        a.Parent = root
    "#,
        200.0,
        100.0,
    );
    let prompt = f.nodes.iter().find(|n| n.name == "Prompt").expect("prompt");
    assert_eq!(prompt.text.as_deref(), Some("Jump"));
    assert_eq!(prompt.text_size, 16.0);
}

#[test]
fn scrolling_frame_clips_and_scrolls_descendants() {
    let f = render(
        r#"
        local scroll = Instance.new("ScrollingFrame")
        scroll.Name = "Scroll"
        scroll.Position = UDim2.new(0, 10, 0, 10)
        scroll.Size = UDim2.new(0, 100, 0, 50)
        scroll.CanvasSize = UDim2.new(1, 0, 0, 200)
        scroll.CanvasPosition = Vector2.new(0, 30)
        scroll.Parent = root

        local corner = Instance.new("UICorner")
        corner.CornerRadius = UDim.new(0, 8)
        corner.Parent = scroll

        local item = Instance.new("Frame")
        item.Name = "Item"
        item.Size = UDim2.new(1, 0, 0, 40)
        item.Position = UDim2.new(0, 0, 0, 10)
        item.Parent = scroll
    "#,
        200.0,
        200.0,
    );
    let scroll = f.nodes.iter().find(|n| n.name == "Scroll").expect("scroll");
    assert_eq!(scroll.rect.x, 10.0);
    assert_eq!(scroll.rect.y, 10.0);
    assert_eq!(scroll.rect.w, 100.0);
    assert_eq!(scroll.rect.h, 50.0);

    let item = f.nodes.iter().find(|n| n.name == "Item").expect("item");
    assert_eq!(item.rect.y, -10.0);
    assert_eq!(
        item.clip,
        Some(Area {
            x: 10.0,
            y: 10.0,
            w: 100.0,
            h: 50.0,
        })
    );
    assert_eq!(item.clip_radius, 8.0);
}

#[test]
fn scrolling_frame_automatic_canvas_size_expands() {
    let f = render(
        r#"
        local scroll = Instance.new("ScrollingFrame")
        scroll.Name = "Scroll"
        scroll.Position = UDim2.new(0, 0, 0, 0)
        scroll.Size = UDim2.new(0, 100, 0, 50)
        scroll.CanvasSize = UDim2.new(1, 0, 0, 60)
        scroll.AutomaticCanvasSize = Enum.AutomaticSize.Y
        scroll.CanvasPosition = Vector2.new(0, 50)
        scroll.Parent = root

        local item = Instance.new("Frame")
        item.Name = "Item"
        item.Size = UDim2.new(1, 0, 0, 40)
        item.Position = UDim2.new(0, 0, 0, 80)
        item.Parent = scroll
    "#,
        200.0,
        200.0,
    );
    let item = f.nodes.iter().find(|n| n.name == "Item").expect("item");
    assert_eq!(item.rect.y, 30.0);
}

// The pointer.

#[test]
fn a_click_fires_activated_and_the_handler_changes_the_tree() {
    let mut h = Harness::new(&format!(
        r#"
        {ONE_BUTTON}
        b.Activated:Connect(function()
            b.Text = "clicked"
        end)
    "#
    ));
    assert_eq!(h.eval::<String>("return b.Text"), "Button");
    h.click(50.0, 50.0);
    assert_eq!(h.eval::<String>("return b.Text"), "clicked");
}

#[test]
fn a_click_outside_the_button_fires_nothing() {
    let mut h = Harness::new(&format!(
        r#"
        {ONE_BUTTON}
        b.Activated:Connect(function() table.insert(log, "activated") end)
    "#
    ));
    h.click(150.0, 50.0);
    assert_eq!(h.log(), "");
}

#[test]
fn the_engines_order_for_a_press_and_release() {
    let mut h = Harness::new(&format!(
        r#"
        {ONE_BUTTON}
        b.MouseButton1Down:Connect(function() table.insert(log, "down") end)
        b.MouseButton1Up:Connect(function() table.insert(log, "up") end)
        b.MouseButton1Click:Connect(function() table.insert(log, "click") end)
        b.Activated:Connect(function() table.insert(log, "activated") end)
        b.InputBegan:Connect(function() table.insert(log, "began") end)
        b.InputEnded:Connect(function() table.insert(log, "ended") end)
    "#
    ));
    h.click(50.0, 50.0);
    assert_eq!(h.log(), "down,began,up,click,activated,ended");
}

#[test]
fn a_click_is_press_and_release_on_the_same_element() {
    let mut h = Harness::new(
        r#"
        local a = Instance.new("TextButton")
        a.Name = "A"
        a.Size = UDim2.new(0, 100, 0, 100)
        a.Parent = root
        local b = Instance.new("TextButton")
        b.Name = "B"
        b.Size = UDim2.new(0, 100, 0, 100)
        b.Position = UDim2.new(0, 100, 0, 0)
        b.Parent = root
        a.MouseButton1Click:Connect(function() table.insert(log, "a click") end)
        b.MouseButton1Click:Connect(function() table.insert(log, "b click") end)
        a.MouseButton1Up:Connect(function() table.insert(log, "a up") end)
        b.MouseButton1Up:Connect(function() table.insert(log, "b up") end)
    "#,
    );
    h.down(50.0, 50.0);
    h.up(150.0, 50.0);
    assert_eq!(h.log(), "b up");
}

#[test]
fn the_right_button_activates_secondarily() {
    let mut h = Harness::new(&format!(
        r#"
        {ONE_BUTTON}
        b.MouseButton2Down:Connect(function() table.insert(log, "down") end)
        b.MouseButton2Up:Connect(function() table.insert(log, "up") end)
        b.MouseButton2Click:Connect(function() table.insert(log, "click") end)
        b.SecondaryActivated:Connect(function() table.insert(log, "secondary") end)
        b.Activated:Connect(function() table.insert(log, "activated") end)
    "#
    ));
    h.right_down(50.0, 50.0);
    h.right_up(50.0, 50.0);
    assert_eq!(h.log(), "down,up,click,secondary");
}

#[test]
fn the_hit_test_uses_the_geometry_the_renderer_drew() {
    let h = Harness::new(
        r#"
        local b = Instance.new("TextButton")
        b.Name = "Centred"
        b.Size = UDim2.new(0, 80, 0, 40)
        b.Position = UDim2.new(0.5, 0, 0.5, 0)
        b.AnchorPoint = Vector2.new(0.5, 0.5)
        b.Parent = root
    "#,
    );
    let drawn = shoot(&h.dom, h.root, SIZE.0, SIZE.1);
    let rect = drawn.nodes[0].rect;
    assert_eq!((rect.x, rect.y, rect.w, rect.h), (60.0, 30.0, 80.0, 40.0));
    assert_eq!(h.hit_at(100.0, 50.0).as_deref(), Some("Centred"));
    assert_eq!(h.hit_at(60.0, 30.0).as_deref(), Some("Centred"));
    assert_eq!(h.hit_at(59.0, 50.0), None);
    assert_eq!(h.hit_at(139.0, 69.0).as_deref(), Some("Centred"));
    assert_eq!(h.hit_at(140.0, 50.0), None);
}

#[test]
fn hit_order_is_reverse_paint_order() {
    let h = Harness::new(
        r#"
        local under = Instance.new("TextButton")
        under.Name = "Under"
        under.Size = UDim2.new(0, 100, 0, 100)
        under.ZIndex = 5
        under.Parent = root
        local over = Instance.new("TextButton")
        over.Name = "Over"
        over.Size = UDim2.new(0, 100, 0, 100)
        over.ZIndex = 9
        over.Parent = root
    "#,
    );
    let drawn = shoot(&h.dom, h.root, SIZE.0, SIZE.1);
    assert_eq!(drawn.nodes.last().expect("a node").name, "Over");
    assert_eq!(h.hit_at(50.0, 50.0).as_deref(), Some("Over"));
}

#[test]
fn declaration_order_breaks_a_zindex_tie() {
    let h = Harness::new(
        r#"
        local first = Instance.new("TextButton")
        first.Name = "First"
        first.Size = UDim2.new(0, 100, 0, 100)
        first.Parent = root
        local second = Instance.new("TextButton")
        second.Name = "Second"
        second.Size = UDim2.new(0, 100, 0, 100)
        second.Parent = root
    "#,
    );
    assert_eq!(h.hit_at(50.0, 50.0).as_deref(), Some("Second"));
}

#[test]
fn a_child_outside_a_clipping_parent_is_not_clickable() {
    let mut h = Harness::new(
        r#"
        local panel = Instance.new("Frame")
        panel.Name = "Panel"
        panel.Size = UDim2.new(0, 100, 0, 50)
        panel.ClipsDescendants = true
        panel.Parent = root
        -- Twice the parent's height, so its bottom half hangs outside the clip.
        local b = Instance.new("TextButton")
        b.Name = "Tall"
        b.Size = UDim2.new(0, 100, 0, 100)
        b.Parent = panel
        b.Activated:Connect(function() table.insert(log, "activated") end)
    "#,
    );
    assert_eq!(h.hit_at(50.0, 25.0).as_deref(), Some("Tall"));
    assert_eq!(h.hit_at(50.0, 75.0), None);
    h.click(50.0, 75.0);
    assert_eq!(h.log(), "");
    h.click(50.0, 25.0);
    assert_eq!(h.log(), "activated");
}

#[test]
fn an_invisible_subtree_is_not_clickable() {
    let mut h = Harness::new(
        r#"
        local panel = Instance.new("Frame")
        panel.Size = UDim2.new(0, 100, 0, 100)
        panel.Visible = false
        panel.Parent = root
        local b = Instance.new("TextButton")
        b.Name = "Hidden"
        b.Size = UDim2.new(1, 0, 1, 0)
        b.Parent = panel
        b.Activated:Connect(function() table.insert(log, "activated") end)
    "#,
    );
    assert_eq!(h.hit_at(50.0, 50.0), None);
    h.click(50.0, 50.0);
    assert_eq!(h.log(), "");
}

#[test]
fn a_label_over_a_button_does_not_steal_the_click() {
    let mut h = Harness::new(
        r#"
        local b = Instance.new("TextButton")
        b.Name = "Go"
        b.Size = UDim2.new(0, 100, 0, 100)
        b.Parent = root
        -- Drawn over the button, and NOT setting Active: a TextLabel ships
        -- Active = false, which is why every Roblox button survives having a
        -- caption laid on top of it.
        local caption = Instance.new("TextLabel")
        caption.Name = "Caption"
        caption.Size = UDim2.new(1, 0, 1, 0)
        caption.ZIndex = 4
        caption.Parent = b
        b.Activated:Connect(function() table.insert(log, "activated") end)
    "#,
    );
    let drawn = shoot(&h.dom, h.root, SIZE.0, SIZE.1);
    assert_eq!(drawn.nodes.last().expect("a node").name, "Caption");
    assert_eq!(h.hit_at(50.0, 50.0).as_deref(), Some("Go"));
    h.click(50.0, 50.0);
    assert_eq!(h.log(), "activated");
}

#[test]
fn an_active_frame_is_hit_and_a_default_frame_is_not() {
    let h = Harness::new(
        r#"
        local passive = Instance.new("Frame")
        passive.Name = "Passive"
        passive.Size = UDim2.new(0, 100, 0, 100)
        passive.Parent = root
        local panel = Instance.new("Frame")
        panel.Name = "Panel"
        panel.Size = UDim2.new(0, 100, 0, 100)
        panel.Position = UDim2.new(0, 100, 0, 0)
        panel.Active = true
        panel.Parent = root
    "#,
    );
    assert_eq!(h.hit_at(50.0, 50.0), None);
    assert_eq!(h.hit_at(150.0, 50.0).as_deref(), Some("Panel"));
}

#[test]
fn interactable_false_suppresses_the_events_and_still_sinks() {
    let mut h = Harness::new(
        r#"
        local under = Instance.new("TextButton")
        under.Name = "Under"
        under.Size = UDim2.new(0, 100, 0, 100)
        under.Parent = root
        local disabled = Instance.new("TextButton")
        disabled.Name = "Disabled"
        disabled.Size = UDim2.new(0, 100, 0, 100)
        disabled.ZIndex = 4
        disabled.Interactable = false
        disabled.Parent = root
        under.Activated:Connect(function() table.insert(log, "under") end)
        disabled.Activated:Connect(function() table.insert(log, "disabled") end)
    "#,
    );
    assert_eq!(h.hit_at(50.0, 50.0).as_deref(), Some("Disabled"));
    h.click(50.0, 50.0);
    assert_eq!(h.log(), "");
}

#[test]
fn a_frame_has_no_activated_and_says_so() {
    let error = Harness::new(
        r#"
        local f = Instance.new("Frame")
        f.Parent = root
    "#,
    )
    .lua
    .load("local f = root:GetChildren()[1] return f.Activated")
    .eval::<Value>()
    .expect_err("a Frame has no Activated");
    assert!(
        error.to_string().contains("not a valid member"),
        "unexpected error: {error}"
    );
}

#[test]
fn a_frame_has_the_pointer_events_a_gui_object_has() {
    let h = Harness::new(
        r#"
        local f = Instance.new("Frame")
        f.Name = "Panel"
        f.Parent = root
    "#,
    );
    assert_eq!(
        h.eval::<String>(r#"return typeof(root:FindFirstChild("Panel").MouseEnter)"#),
        "RBXScriptSignal"
    );
}

#[test]
fn implements_answers_by_class_for_the_input_family() {
    assert!(implements("TextButton", "Activated"));
    assert!(!implements("Frame", "Activated"));
    assert!(implements("Frame", "MouseEnter"));
    assert!(!implements("UIListLayout", "MouseEnter"));
    assert!(implements("TextButton", "InputBegan"));
}

#[test]
fn moving_between_two_elements_leaves_before_it_enters() {
    let mut h = Harness::new(
        r#"
        local a = Instance.new("TextButton")
        a.Name = "A"
        a.Size = UDim2.new(0, 100, 0, 100)
        a.Parent = root
        local b = Instance.new("TextButton")
        b.Name = "B"
        b.Size = UDim2.new(0, 100, 0, 100)
        b.Position = UDim2.new(0, 100, 0, 0)
        b.Parent = root
        for _, e in { a, b } do
            e.MouseEnter:Connect(function() table.insert(log, `enter {e.Name}`) end)
            e.MouseLeave:Connect(function() table.insert(log, `leave {e.Name}`) end)
        end
    "#,
    );
    h.moved(50.0, 50.0);
    h.moved(60.0, 50.0);
    h.moved(150.0, 50.0);
    assert_eq!(h.log(), "enter A,leave A,enter B");
}

#[test]
fn leaving_the_surface_entirely_still_leaves() {
    let mut h = Harness::new(&format!(
        r#"
        {ONE_BUTTON}
        b.MouseEnter:Connect(function() table.insert(log, "enter") end)
        b.MouseLeave:Connect(function() table.insert(log, "leave") end)
    "#
    ));
    h.moved(50.0, 50.0);
    h.moved(150.0, 50.0);
    assert_eq!(h.log(), "enter,leave");
}

#[test]
fn mouse_moved_carries_the_position() {
    let mut h = Harness::new(&format!(
        r#"
        {ONE_BUTTON}
        b.MouseMoved:Connect(function(x, y) table.insert(log, `{{x}} {{y}}`) end)
    "#
    ));
    h.moved(12.0, 34.0);
    assert_eq!(h.log(), "12 34");
}

#[test]
fn an_element_appearing_under_a_stationary_cursor_enters() {
    let mut h = Harness::new(
        r#"
        log.appeared = nil
        function reveal()
            local b = Instance.new("TextButton")
            b.Name = "Late"
            b.Size = UDim2.new(0, 100, 0, 100)
            b.Parent = root
            b.MouseEnter:Connect(function() table.insert(log, "enter Late") end)
        end
    "#,
    );
    h.moved(50.0, 50.0);
    assert_eq!(h.log(), "");
    h.eval::<()>("reveal()");
    h.refresh();
    assert_eq!(h.log(), "enter Late");
}

#[test]
fn a_destroyed_hover_is_dropped_and_the_next_element_enters() {
    let mut h = Harness::new(
        r#"
        local over = Instance.new("TextButton")
        over.Name = "Over"
        over.Size = UDim2.new(0, 100, 0, 100)
        over.ZIndex = 9
        over.Parent = root
        local under = Instance.new("TextButton")
        under.Name = "Under"
        under.Size = UDim2.new(0, 100, 0, 100)
        under.Parent = root
        over.MouseEnter:Connect(function() table.insert(log, "enter Over") end)
        over.MouseLeave:Connect(function() table.insert(log, "leave Over") end)
        under.MouseEnter:Connect(function() table.insert(log, "enter Under") end)
        function drop() over:Destroy() end
    "#,
    );
    h.moved(50.0, 50.0);
    assert_eq!(h.log(), "enter Over");
    h.eval::<()>("drop()");
    h.refresh();
    assert_eq!(h.log(), "enter Over,enter Under");
}

#[test]
fn a_press_target_destroyed_before_the_release_completes_no_click() {
    let mut h = Harness::new(&format!(
        r#"
        {ONE_BUTTON}
        b.MouseButton1Click:Connect(function() table.insert(log, "click") end)
        function drop() b:Destroy() end
    "#
    ));
    h.down(50.0, 50.0);
    h.eval::<()>("drop()");
    h.refresh();
    h.up(50.0, 50.0);
    assert_eq!(h.log(), "");
}

#[test]
fn refresh_before_the_cursor_has_ever_arrived_fires_nothing() {
    let mut h = Harness::new(&format!(
        r#"
        {ONE_BUTTON}
        b.MouseEnter:Connect(function() table.insert(log, "enter") end)
    "#
    ));
    h.refresh();
    assert_eq!(h.log(), "");
}

#[test]
fn a_handler_that_touches_the_tree_does_not_deadlock() {
    let mut h = Harness::new(&format!(
        r#"
        {ONE_BUTTON}
        local other = Instance.new("TextButton")
        other.Name = "Other"
        other.Size = UDim2.new(0, 100, 0, 100)
        other.Position = UDim2.new(0, 100, 0, 0)
        other.Parent = root
        b.Activated:Connect(function()
            -- THE ORDINARY CASE FOR AN INPUT HANDLER, not an exotic one: a
            -- click that changes something else. The arena is behind a
            -- non-reentrant `Mutex`, so a fire with the lock still held stops
            -- the process here -- which is what sprint 7 hit in `__index` and
            -- sprint 8 hit in `__newindex`.
            other.Text = "moved"
            other.Size = UDim2.new(0, 50, 0, 50)
        end)
    "#
    ));
    h.click(50.0, 50.0);
    assert_eq!(
        h.eval::<String>(r#"return root:FindFirstChild("Other").Text"#),
        "moved"
    );
}

#[test]
fn a_handler_that_destroys_its_own_element_survives_the_rest_of_the_batch() {
    let mut h = Harness::new(&format!(
        r#"
        {ONE_BUTTON}
        b.MouseButton1Up:Connect(function()
            table.insert(log, "up")
            b:Destroy()
        end)
        b.MouseButton1Click:Connect(function() table.insert(log, "click") end)
        b.Activated:Connect(function() table.insert(log, "activated") end)
    "#
    ));
    h.up(50.0, 50.0);
    assert_eq!(h.log(), "up");
}

#[test]
fn a_handlers_error_is_reported_and_does_not_stop_the_batch() {
    let mut h = Harness::new(&format!(
        r#"
        {ONE_BUTTON}
        b.MouseButton1Up:Connect(function() error("deliberate") end)
        b.Activated:Connect(function() table.insert(log, "activated") end)
    "#
    ));
    h.click(50.0, 50.0);
    assert_eq!(h.log(), "activated");
}

#[test]
fn a_handler_that_changes_nothing_does_not_dirty_the_tree() {
    let mut h = Harness::new(&format!(
        r#"
        {ONE_BUTTON}
        b.Text = "Go"
        local seen = 0
        b.Activated:Connect(function()
            seen += 1
            -- ASSIGNING THE SAME VALUE IS NOT A CHANGE, which is sprint 8's
            -- decision 1. So this handler genuinely changes nothing.
            b.Text = "Go"
        end)
        function seenCount() return seen end
    "#
    ));
    h.dirty();
    h.moved(50.0, 50.0);
    h.click(50.0, 50.0);
    h.moved(60.0, 50.0);
    h.wheel(50.0, 50.0, 1.0);
    assert_eq!(h.eval::<i32>("return seenCount()"), 1);
    assert!(!h.dirty(), "input dirtied a tree nothing changed");
}

#[test]
fn a_handler_that_changes_something_does_dirty_the_tree() {
    let mut h = Harness::new(&format!(
        r#"
        {ONE_BUTTON}
        b.Activated:Connect(function() b.Text = "clicked" end)
    "#
    ));
    h.dirty();
    h.click(50.0, 50.0);
    assert!(h.dirty(), "a real change did not dirty the tree");
}

#[test]
fn the_wheel_picks_a_direction_from_the_sign() {
    let mut h = Harness::new(&format!(
        r#"
        {ONE_BUTTON}
        b.MouseWheelForward:Connect(function() table.insert(log, "forward") end)
        b.MouseWheelBackward:Connect(function() table.insert(log, "backward") end)
    "#
    ));
    h.wheel(50.0, 50.0, 1.0);
    h.wheel(50.0, 50.0, -1.0);
    h.wheel(50.0, 50.0, 0.0);
    assert_eq!(h.log(), "forward,backward");
}

#[test]
fn an_input_object_reports_its_type_and_state() {
    let h = Harness::new(&format!(
        r#"
        {ONE_BUTTON}
        b.InputBegan:Connect(function(input)
            table.insert(log, typeof(input))
            table.insert(log, tostring(input.UserInputType))
            table.insert(log, tostring(input.UserInputState))
            table.insert(log, tostring(input.Position.X))
            table.insert(log, tostring(input.Position.Y))
        end)
    "#
    ));
    let mut h = h;
    h.down(12.0, 34.0);
    assert_eq!(
        h.log(),
        "InputObject,Enum.UserInputType.MouseButton1,Enum.UserInputState.Begin,12,34"
    );
}

#[test]
fn an_input_objects_enum_items_compare_equal_to_the_guests_own() {
    let mut h = Harness::new(&format!(
        r#"
        {ONE_BUTTON}
        b.InputBegan:Connect(function(input)
            table.insert(log, tostring(
                input.UserInputType == Enum.UserInputType.MouseButton1
            ))
            table.insert(log, tostring(
                input.UserInputState == Enum.UserInputState.Begin
            ))
        end)
    "#
    ));
    h.right_down(50.0, 50.0);
    assert_eq!(h.log(), "false,true");
    h.down(50.0, 50.0);
    assert_eq!(h.log(), "false,true,true,true");
}

#[test]
fn the_middle_button_reaches_input_began_and_has_no_click() {
    let mut h = Harness::new(&format!(
        r#"
        {ONE_BUTTON}
        b.InputBegan:Connect(function(input)
            table.insert(log, tostring(input.UserInputType))
        end)
        b.MouseButton1Click:Connect(function() table.insert(log, "click") end)
    "#
    ));
    h.press(Button::Middle, 50.0, 50.0);
    h.release(Button::Middle, 50.0, 50.0);
    assert_eq!(h.log(), "Enum.UserInputType.MouseButton3");
}

#[test]
fn a_move_reports_its_delta_through_input_changed() {
    let mut h = Harness::new(&format!(
        r#"
        {ONE_BUTTON}
        b.InputChanged:Connect(function(input)
            table.insert(log, `{{input.Delta.X}} {{input.Delta.Y}}`)
        end)
    "#
    ));
    h.moved(10.0, 10.0);
    h.moved(30.0, 25.0);
    assert_eq!(h.log(), "0 0,20 15");
}

#[test]
fn input_ended_goes_to_where_the_press_began() {
    let mut h = Harness::new(
        r#"
        local a = Instance.new("TextButton")
        a.Name = "A"
        a.Size = UDim2.new(0, 100, 0, 100)
        a.Parent = root
        local b = Instance.new("TextButton")
        b.Name = "B"
        b.Size = UDim2.new(0, 100, 0, 100)
        b.Position = UDim2.new(0, 100, 0, 0)
        b.Parent = root
        a.InputEnded:Connect(function() table.insert(log, "a ended") end)
        b.InputEnded:Connect(function() table.insert(log, "b ended") end)
    "#,
    );
    h.down(50.0, 50.0);
    h.up(150.0, 50.0);
    assert_eq!(h.log(), "a ended");
}

#[test]
fn textbox_focus_full_lifecycle() {
    let mut h = Harness::new(
        r#"
        local tb = Instance.new("TextBox")
        tb.Size = UDim2.new(0, 100, 0, 50)
        tb.Position = UDim2.new(0, 0, 0, 0)
        tb.Parent = root

        tb.Focused:Connect(function()
            table.insert(log, `focused:{tb:IsFocused()}`)
        end)
        tb.FocusLost:Connect(function(enterPressed)
            table.insert(log, `lost:{enterPressed}:{tb:IsFocused()}`)
        end)
    "#,
    );
    h.down(50.0, 25.0);
    h.up(50.0, 25.0);
    assert_eq!(h.log(), "focused:true");
    h.key("Return");
    assert_eq!(h.log(), "focused:true,lost:true:false");
    h.down(50.0, 25.0);
    h.up(50.0, 25.0);
    assert_eq!(h.log(), "focused:true,lost:true:false,focused:true");
    h.down(150.0, 75.0);
    h.up(150.0, 75.0);
    assert_eq!(
        h.log(),
        "focused:true,lost:true:false,focused:true,lost:false:false"
    );
}

#[test]
fn textbox_capture_and_release_focus_programmatically() {
    let h = Harness::new(
        r#"
        local a = Instance.new("TextBox")
        a.Parent = root
        local b = Instance.new("TextBox")
        b.Parent = root

        a.Focused:Connect(function() table.insert(log, "a focused") end)
        a.FocusLost:Connect(function(ep) table.insert(log, `a lost:{ep}`) end)
        b.Focused:Connect(function() table.insert(log, "b focused") end)
        b.FocusLost:Connect(function(ep) table.insert(log, `b lost:{ep}`) end)

        a:CaptureFocus()
        -- Capturing already-focused box does not fire Focused twice
        a:CaptureFocus()
        -- Switching focus to b releases a and focuses b
        b:CaptureFocus()
        b:ReleaseFocus()
        -- Releasing when not focused is a no-op
        b:ReleaseFocus()
    "#,
    );
    assert_eq!(h.log(), "a focused,a lost:false,b focused,b lost:false");
}

#[test]
fn click_outside_when_not_focused_does_not_fire_focus_lost() {
    let mut h = Harness::new(
        r#"
        local tb = Instance.new("TextBox")
        tb.Size = UDim2.new(0, 100, 0, 50)
        tb.Parent = root

        tb.FocusLost:Connect(function() table.insert(log, "lost") end)
    "#,
    );
    h.down(150.0, 75.0);
    h.up(150.0, 75.0);
    assert_eq!(h.log(), "");
}

#[test]
fn click_inside_already_focused_box_does_not_fire_focused_twice() {
    let mut h = Harness::new(
        r#"
        local tb = Instance.new("TextBox")
        tb.Size = UDim2.new(0, 100, 0, 50)
        tb.Parent = root

        tb.Focused:Connect(function() table.insert(log, "focused") end)
    "#,
    );
    h.down(50.0, 25.0);
    h.up(50.0, 25.0);
    assert_eq!(h.log(), "focused");
    h.down(60.0, 30.0);
    h.up(60.0, 30.0);
    assert_eq!(h.log(), "focused");
}

#[test]
fn destroying_focused_textbox_clears_focus_owner() {
    let mut h = Harness::new(
        r#"
        local tb = Instance.new("TextBox")
        tb.Size = UDim2.new(0, 100, 0, 50)
        tb.Parent = root

        tb:CaptureFocus()
        table.insert(log, `before:{tb:IsFocused()}`)
        tb.FocusLost:Connect(function() table.insert(log, "lost") end)
        tb:Destroy()
    "#,
    );
    assert_eq!(h.log(), "before:true");
    h.down(150.0, 75.0);
    h.up(150.0, 75.0);
    assert_eq!(h.log(), "before:true");
}

#[test]
fn deadlock_witness_handler_touches_the_tree() {
    let mut h = Harness::new(
        r#"
        local tb = Instance.new("TextBox")
        tb.Size = UDim2.new(0, 100, 0, 50)
        tb.Text = "initial"
        tb.Parent = root

        tb.Focused:Connect(function()
            -- Read and mutate the tree under the signal dispatch:
            local old = tb.Text
            tb.Text = old .. "+focused"
            table.insert(log, tb.Text)
        end)
        tb.FocusLost:Connect(function(enterPressed)
            tb.Text = tb.Text .. "+lost"
            table.insert(log, tb.Text)
        end)
    "#,
    );
    h.down(50.0, 25.0);
    h.up(50.0, 25.0);
    h.key("Return");
    assert_eq!(h.log(), "initial+focused,initial+focused+lost");
}

#[test]
fn wheel_scrolls_scrolling_frame_and_clamps() {
    let mut h = Harness::new(
        r#"
        local sf = Instance.new("ScrollingFrame")
        sf.Name = "Scroll"
        sf.Size = UDim2.new(0, 100, 0, 50)
        sf.CanvasSize = UDim2.new(0, 0, 0, 150)
        sf.Parent = root
    "#,
    );
    h.wheel(50.0, 25.0, -1.0);
    let pos1: (f32, f32) =
        h.eval("return root.Scroll.CanvasPosition.X, root.Scroll.CanvasPosition.Y");
    assert_eq!(pos1, (0.0, 40.0));
    h.wheel(50.0, 25.0, -1.0);
    let pos2: (f32, f32) =
        h.eval("return root.Scroll.CanvasPosition.X, root.Scroll.CanvasPosition.Y");
    assert_eq!(pos2, (0.0, 80.0));
    h.wheel(50.0, 25.0, -1.0);
    let pos3: (f32, f32) =
        h.eval("return root.Scroll.CanvasPosition.X, root.Scroll.CanvasPosition.Y");
    assert_eq!(pos3, (0.0, 100.0));
    h.wheel(50.0, 25.0, 1.0);
    let pos4: (f32, f32) =
        h.eval("return root.Scroll.CanvasPosition.X, root.Scroll.CanvasPosition.Y");
    assert_eq!(pos4, (0.0, 60.0));
    h.wheel(50.0, 25.0, 1.0);
    h.wheel(50.0, 25.0, 1.0);
    let pos5: (f32, f32) =
        h.eval("return root.Scroll.CanvasPosition.X, root.Scroll.CanvasPosition.Y");
    assert_eq!(pos5, (0.0, 0.0));
}

#[test]
fn scrolling_enabled_false_suppresses_wheel_scrolling() {
    let mut h = Harness::new(
        r#"
        local sf = Instance.new("ScrollingFrame")
        sf.Name = "Scroll"
        sf.Size = UDim2.new(0, 100, 0, 50)
        sf.CanvasSize = UDim2.new(0, 0, 0, 150)
        sf.ScrollingEnabled = false
        sf.Parent = root
    "#,
    );
    h.wheel(50.0, 25.0, -1.0);
    let pos: (f32, f32) =
        h.eval("return root.Scroll.CanvasPosition.X, root.Scroll.CanvasPosition.Y");
    assert_eq!(pos, (0.0, 0.0));
}

#[test]
fn scroll_velocity_observes_impulse_and_resets() {
    let mut h = Harness::new(
        r#"
        local sf = Instance.new("ScrollingFrame")
        sf.Name = "Scroll"
        sf.Size = UDim2.new(0, 100, 0, 50)
        sf.CanvasSize = UDim2.new(0, 0, 0, 200)
        sf.Parent = root
    "#,
    );
    let vel0: (f32, f32) = h.eval("local v = root.Scroll:GetScrollVelocity() return v.X, v.Y");
    assert_eq!(vel0, (0.0, 0.0));
    h.wheel(50.0, 25.0, -1.0);
    let vel1: (f32, f32) = h.eval("local v = root.Scroll:GetScrollVelocity() return v.X, v.Y");
    assert!(
        vel1.1 > 0.0,
        "expected positive Y velocity after wheeling down, got {:?}",
        vel1
    );
    h.eval::<()>("root.Scroll:ResetScrollVelocity()");
    let vel2: (f32, f32) = h.eval("local v = root.Scroll:GetScrollVelocity() return v.X, v.Y");
    assert_eq!(vel2, (0.0, 0.0));
}

#[test]
fn wheel_deadlock_witness_property_changed_mutates_tree() {
    let mut h = Harness::new(
        r#"
        local sf = Instance.new("ScrollingFrame")
        sf.Name = "Scroll"
        sf.Size = UDim2.new(0, 100, 0, 50)
        sf.CanvasSize = UDim2.new(0, 0, 0, 200)
        sf.Parent = root

        local label = Instance.new("TextLabel")
        label.Name = "Status"
        label.Text = "none"
        label.Parent = root

        sf:GetPropertyChangedSignal("CanvasPosition"):Connect(function()
            -- Mutate the tree inside the signal handler:
            label.Text = `scrolled:{sf.CanvasPosition.Y}`
            table.insert(log, label.Text)
        end)
    "#,
    );
    h.wheel(50.0, 25.0, -1.0);
    assert_eq!(h.log(), "scrolled:40");
    assert_eq!(h.eval::<String>("return root.Status.Text"), "scrolled:40");
}

// Scenes.

#[test]
fn a_scene_carrying_conformance_fields_is_refused() {
    let err = match scene_from(
        r#"return { name = "x", shows = "y", provenance = "roblox",
                   tree = { class = "Frame", name = "R", props = {} } }"#,
    ) {
        Ok(_) => panic!("a scene with provenance must be refused"),
        Err(e) => e,
    };
    assert!(err.contains("provenance"), "{err}");
    assert!(err.contains("ADR-005"), "{err}");
}

#[test]
fn a_plain_scene_reports_what_it_sets() {
    let scene = scene_from(
        r#"return {
            name = "x",
            shows = "a frame with a label in it",
            surface = { width = 10, height = 10 },
            tree = {
                class = "Frame", name = "R",
                props = { BackgroundTransparency = 0.5 },
                children = {
                    { class = "TextLabel", name = "T", props = { Text = "hi", TextSize = 12 } },
                },
            },
        }"#,
    )
    .unwrap_or_else(|e| panic!("a plain scene loads: {e}"));
    assert!(scene.demonstrates.has("BackgroundTransparency"));
    assert!(scene.demonstrates.has("TextSize"));
    assert!(scene
        .demonstrates_by_class
        .has("TextLabel", "Text"));
    assert!(!scene
        .demonstrates_by_class
        .has("Frame", "Text"));
}

#[test]
fn a_scene_without_shows_is_refused() {
    let err = match scene_from(
        r#"return { name = "x", tree = { class = "Frame", name = "R", props = {} } }"#,
    ) {
        Ok(_) => panic!("a scene without shows must be refused"),
        Err(e) => e,
    };
    assert!(err.contains("shows"), "{err}");
}

#[test]
fn name_and_parent_are_counted_though_they_are_not_props() {
    let scene = scene_from(
        r#"return {
            name = "x",
            shows = "a parent and a child",
            tree = {
                class = "Frame", name = "R", props = {},
                children = { { class = "TextLabel", name = "T", props = {} } },
            },
        }"#,
    )
    .unwrap_or_else(|e| panic!("loads: {e}"));
    assert!(scene.demonstrates.has("Name"), "Name not counted");
    assert!(scene.demonstrates.has("Parent"), "Parent not counted");
    assert!(scene
        .demonstrates_by_class
        .has("TextLabel", "Parent"));
}

#[test]
fn a_variant_needs_a_node_a_prop_and_a_value() {
    for (src, want) in [
        (
            r#"return { name="x", shows="y", tree={class="Frame",name="R",props={}},
             variants = { { prop = "Visible", value = false } } }"#,
            "node",
        ),
        (
            r#"return { name="x", shows="y", tree={class="Frame",name="R",props={}},
             variants = { { node = "R", value = false } } }"#,
            "prop",
        ),
        (
            r#"return { name="x", shows="y", tree={class="Frame",name="R",props={}},
             variants = { { node = "R", prop = "Visible" } } }"#,
            "value",
        ),
    ] {
        let err = match scene_from(src) {
            Ok(_) => panic!("an incomplete variant must be refused ({want})"),
            Err(e) => e,
        };
        assert!(err.contains(want), "expected {want} in: {err}");
    }
}

#[test]
fn variants_are_read_in_order() {
    let scene = scene_from(
        r#"return { name="x", shows="y",
             tree = { class="Frame", name="R", props={} },
             variants = {
               { node = "R", prop = "Visible", value = false },
               { node = "R", prop = "BackgroundTransparency", value = 1 },
             } }"#,
    )
    .unwrap_or_else(|e| panic!("loads: {e}"));
    assert_eq!(scene.variants.len(), 2);
    assert_eq!(scene.variants[0].property, "Visible");
    assert_eq!(scene.variants[1].node, "R");
}

// Text that can be measured.

/// A face in which every character is half as wide as the size, and a line as high as it.
struct Typewriter;

impl Face for Typewriter {
    fn measure(&self, text: &str, size: f32) -> Option<(f32, f32)> {
        Some((text.chars().count() as f32 * size / 2.0, size))
    }

    fn measure_wrapped(&self, text: &str, size: f32, width: f32) -> Option<(f32, f32)> {
        let per_line = (width / (size / 2.0)).floor().max(1.0);
        let count = text.chars().count() as f32;
        let lines = (count / per_line).ceil().max(1.0);
        Some((count.min(per_line) * size / 2.0, lines * size))
    }
}

fn render_typed(src: &str) -> Shot {
    let (lua, dom, root) = rooted("Folder", "Root");
    dom.lock().expect("dom").fonts = Fonts(Some(Arc::new(Typewriter)));
    lua.load(src).exec().expect("guest");
    shoot(&dom, root, 200.0, 100.0)
}

#[test]
fn a_label_grows_to_its_text() {
    let f = render_typed(
        r#"
        local t = Instance.new("TextLabel")
        t.Text = "hello"
        t.TextSize = 20
        t.AutomaticSize = Enum.AutomaticSize.XY
        t.Parent = root
    "#,
    );
    assert_eq!((f.nodes[0].rect.w, f.nodes[0].rect.h), (50.0, 20.0));
}

#[test]
fn a_wrapped_label_grows_downwards() {
    let f = render_typed(
        r#"
        local t = Instance.new("TextLabel")
        t.Text = "hello world"
        t.TextSize = 20
        t.TextWrapped = true
        t.Size = UDim2.new(0, 60, 0, 0)
        t.AutomaticSize = Enum.AutomaticSize.Y
        t.Parent = root
    "#,
    );
    assert_eq!((f.nodes[0].rect.w, f.nodes[0].rect.h), (60.0, 40.0));
}

#[test]
fn scaled_text_fills_its_box() {
    let f = render_typed(
        r#"
        local t = Instance.new("TextLabel")
        t.Text = "hello"
        t.TextScaled = true
        t.Size = UDim2.new(0, 50, 0, 90)
        t.Parent = root
    "#,
    );
    assert!((f.nodes[0].text_size - 20.0).abs() < 0.5, "{}", f.nodes[0].text_size);
}

#[test]
fn both_image_properties_name_the_same_uri() {
    for (property, value) in [
        ("Image", r#""mod://dot.png""#),
        ("ImageContent", r#"Content.fromUri("mod://dot.png")"#),
    ] {
        let f = render(
            &format!(
                r#"
                local i = Instance.new("ImageLabel")
                i.Size = UDim2.new(0, 10, 0, 10)
                i.{property} = {value}
                i.Parent = root
            "#
            ),
            50.0,
            50.0,
        );
        let image = f.nodes[0].image.as_ref().expect("image");
        assert_eq!(image.uri, "mod://dot.png", "{property}");
    }
}

#[test]
fn the_focus_is_for_text_boxes_and_a_velocity_for_what_scrolls() {
    for member in ["CaptureFocus", "IsFocused", "Focused", "FocusLost"] {
        let refused = err(&format!(r#"return Instance.new("TextLabel").{member}"#));
        assert!(refused.contains("not a valid member"), "{refused}");
    }
    for member in ["GetScrollVelocity", "ResetScrollVelocity"] {
        let refused = err(&format!(r#"return Instance.new("Frame").{member}"#));
        assert!(refused.contains("not a valid member"), "{refused}");
    }
}
