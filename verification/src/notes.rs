//! What is told of a layout, once.

use crate::layout::{
    grows_by, laid_out_kids, stuck_along, Box2, Layout, Ruler, SolvedItem, Stage,
};
use crate::names::Names;
use crate::scalar::Scalar;
use crate::text::{decimal, decimal_text, glue2};
use vstd::prelude::*;

verus! {

/// Something to tell, and what it is known by.
#[derive(Debug)]
pub struct Note {
    pub key: String,
    pub message: String,
}

pub struct NoteView {
    pub key: Seq<char>,
    pub message: Seq<char>,
}

impl View for Note {
    type V = NoteView;

    open spec fn view(&self) -> NoteView {
        NoteView { key: self.key@, message: self.message@ }
    }
}

pub open spec fn note_views(notes: Seq<Note>) -> Seq<NoteView> {
    notes.map_values(|n: Note| n@)
}

/// What is told of an element that could not be measured along one axis.
pub open spec fn unmeasured<R>(st: Stage<R>, id: usize, across: bool) -> NoteView {
    let name = if st.dom.alive(id) {
        st.dom.node(id).name
    } else {
        Seq::empty()
    };
    if across {
        NoteView {
            key: "unmeasurable_x_"@ + decimal(id as nat),
            message: name
                + ": AutomaticSize.X measured nothing -- every descendant is sized by scale on X, so it kept its authored width"@,
        }
    } else {
        NoteView {
            key: "unmeasurable_y_"@ + decimal(id as nat),
            message: name
                + ": AutomaticSize.Y measured nothing -- every descendant is sized by scale on Y, so it kept its authored height"@,
        }
    }
}

/// What is told of an element: that it could not be measured, where it has anything in it.
pub open spec fn notes_of<S, R>(st: Stage<R>, item: SolvedItem<S>) -> Seq<NoteView> {
    if laid_out_kids(st, item.id).len() == 0 {
        Seq::empty()
    } else {
        (if item.stuck.x {
            seq![unmeasured(st, item.id, true)]
        } else {
            Seq::empty()
        }) + (if item.stuck.y {
            seq![unmeasured(st, item.id, false)]
        } else {
            Seq::empty()
        })
    }
}

/// What is told of the first elements of a layout, in their order.
pub open spec fn notes_in<S, R>(st: Stage<R>, items: Seq<SolvedItem<S>>, count: nat) -> Seq<NoteView>
    decreases count,
{
    if count == 0 {
        Seq::empty()
    } else {
        notes_in(st, items, (count - 1) as nat) + notes_of(st, items[count - 1])
    }
}

impl<'a, R> Layout<'a, R> {
    fn name_for(&self, id: usize) -> (r: String)
        requires
            self.ok(),
        ensures
            r@ == (if self@.dom.alive(id) {
                self@.dom.node(id).name
            } else {
                Seq::empty()
            }),
    {
        match self.dom.name_of(id) {
            Some(name) => name,
            None => {
                let none = String::new();
                assert(none@ =~= Seq::empty());
                none
            },
        }
    }

    /// What is told of one element.
    pub fn report_auto<S>(&self, item: &SolvedItem<S>) -> (r: Vec<Note>)
        requires
            self.ok(),
        ensures
            note_views(r@) == notes_of(self@, *item),
    {
        let mut r: Vec<Note> = Vec::new();
        let id: usize = item.id;
        if (item.stuck.x || item.stuck.y) && self.real_kids(id).len() > 0 {
            if item.stuck.x {
                r.push(
                    Note {
                        key: glue2("unmeasurable_x_", decimal_text(id as u64).as_str()),
                        message: glue2(
                            self.name_for(id).as_str(),
                            ": AutomaticSize.X measured nothing -- every descendant is sized by scale on X, so it kept its authored width",
                        ),
                    },
                );
            }
            if item.stuck.y {
                r.push(
                    Note {
                        key: glue2("unmeasurable_y_", decimal_text(id as u64).as_str()),
                        message: glue2(
                            self.name_for(id).as_str(),
                            ": AutomaticSize.Y measured nothing -- every descendant is sized by scale on Y, so it kept its authored height",
                        ),
                    },
                );
            }
        }
        assert(note_views(r@) =~= notes_of(self@, *item));
        r
    }

    /// What is told of a whole layout.
    pub fn reports<S>(&self, items: &Vec<SolvedItem<S>>) -> (r: Vec<Note>)
        requires
            self.ok(),
        ensures
            note_views(r@) == notes_in(self@, items@, items@.len()),
    {
        let mut r: Vec<Note> = Vec::new();
        let mut k: usize = 0;
        assert(note_views(r@) =~= notes_in(self@, items@, 0));
        while k < items.len()
            invariant
                self.ok(),
                k <= items.len(),
                note_views(r@) == notes_in(self@, items@, k as nat),
            decreases items.len() - k,
        {
            let ghost was = r@;
            let mut more = self.report_auto(&items[k]);
            let ghost next = more@;
            r.append(&mut more);
            assert(note_views(r@) =~= note_views(was) + note_views(next));
            k += 1;
        }
        r
    }
}

/// Say a note, unless one of its key was said before: the line to print, if any.
pub fn note_once_layout(said: &mut Names, note: &Note) -> (r: Option<String>)
    ensures
        final(said)@ == old(said)@.insert(note@.key),
        match r {
            Some(line) => !old(said)@.contains(note@.key) && line@ == "[dew] "@ + note@.message,
            None => old(said)@.contains(note@.key),
        },
{
    let fresh = !said.has(note.key.as_str());
    let ghost was = said@;
    said.put(note.key.as_str());
    if fresh {
        Some(glue2("[dew] ", note.message.as_str()))
    } else {
        assert(was.insert(note@.key) =~= was);
        None
    }
}

// ---- laws ----

/// A note is said once: after it was said, nothing is said of its key again.
pub proof fn a_note_is_said_once(said: Set<Seq<char>>, note: NoteView)
    ensures
        said.insert(note.key).contains(note.key),
        said.insert(note.key).insert(note.key) == said.insert(note.key),
{
    assert(said.insert(note.key).insert(note.key) =~= said.insert(note.key));
}

/// Nothing is told of an element that grows along no axis, whatever is in it.
pub proof fn only_what_grows_is_told_of<S: Scalar, R: Ruler<S>>(
    st: Stage<R>,
    id: usize,
    rect: Box2<S>,
    items: Seq<SolvedItem<S>>,
    own: Box2<S>,
    offered: Box2<S>,
    item: SolvedItem<S>,
)
    requires
        !grows_by(st, id, "AutomaticSize"@).x,
        !grows_by(st, id, "AutomaticSize"@).y,
        item.id == id,
        item.stuck == stuck_along(st, id, rect, items, own, offered),
    ensures
        notes_of(st, item).len() == 0,
{
}

} // verus!
