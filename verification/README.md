# dew_host

The object model of the Dew host, verified with Verus.

Dew runs applets: small scripts that build a tree of instances, set their properties, listen to
their events, and are drawn from that tree. This crate holds what the host decides about such a
tree, with a contract on every function:

- `dom`, `tree`: the instances, and what every change to them keeps.
- `signal`, `connection`, `agenda`, `course`, `operations`: events, and the order in which an
  operation tells of itself. An agenda is performed a step at a time, so that nothing is held while
  a guest's function runs.
- `reflection`, `extensions`, `flags`, `members`, `enums`: which classes, properties, members and
  enumerations there are.
- `guest`, `instance`, `vocabulary`, `content`, `value`, `number`: values on their way between a
  guest and its instances.
- `collection`, `handles`, `world`: tags, handles and the focus.
- `style`, `cascade`: selectors and the rules that win.
- `layout`, `render`, `notes`, `input`: where everything is, what is drawn, and what a pointer
  meets. They are written for any arithmetic (`scalar`).
- `gallery`, `coverage`, `paint`, `framework`: scenes, what they show, and what they leave out.
- `installed`, `library`, `bindings`: applets, and the script runtime's state.

`app/` is the host around the library: the script engine's objects, files, and floating point.
`tests/guest.rs` runs guests' scripts against the library; the other tests call it directly.
