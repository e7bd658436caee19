//! The monitors of an X11 desktop, and the choice of where frames are captured.

use vstd::prelude::*;

use crate::text::{
    characters, comes_before, decimal, digits_value, is_digit, lemma_decimal_round_trips,
    lemma_dictionary_order, lemma_dictionary_order_transitive, lemma_texts_are_taken_apart,
    precedes, push_decimal, signed_decimal, spells, split_once,
};

verus! {

/// Where the user wants frames to be captured.
#[derive(Clone, Copy, Debug, PartialEq, Eq, Structural)]
pub enum BackendPreference {
    Auto,
    X11,
    Portal,
}

impl Default for BackendPreference {
    fn default() -> (preference: Self)
        ensures
            preference == BackendPreference::Auto,
    {
        BackendPreference::Auto
    }
}

/// Where frames are captured.
#[derive(Clone, Copy, Debug, PartialEq, Eq, Structural)]
pub enum Backend {
    X11,
    Portal,
}

/// A monitor: where its top left corner lies on the desktop, and how large it is.
#[derive(Debug, PartialEq, Eq)]
pub struct Monitor {
    pub name: String,
    pub x: i16,
    pub y: i16,
    pub width: u16,
    pub height: u16,
    pub primary: bool,
}

/// A number with its sign, also where it is not negative.
pub open spec fn with_sign(value: int) -> Seq<char> {
    if value < 0 {
        signed_decimal(value)
    } else {
        seq!['+'] + decimal(value as nat)
    }
}

fn push_with_sign(text: &mut String, value: i16)
    ensures
        final(text)@ == old(text)@ + with_sign(value as int),
{
    if value < 0 {
        crate::text::push_signed(text, value as i64);
    } else {
        text.push('+');
        push_decimal(text, value as u64);
        assert(text@ =~= old(text)@ + with_sign(value as int));
    }
}

impl Monitor {
    /// Size and position in the notation of xrandr.
    pub open spec fn geometry_text(self) -> Seq<char> {
        decimal(self.width as nat) + "x"@ + decimal(self.height as nat) + with_sign(self.x as int)
            + with_sign(self.y as int)
    }

    /// Size and position in the notation of xrandr.
    pub fn geometry(&self) -> (text: String)
        ensures
            text@ == self.geometry_text(),
    {
        let mut text: String = crate::text::decimal_text(self.width as u64).concat("x");
        push_decimal(&mut text, self.height as u64);
        push_with_sign(&mut text, self.x);
        push_with_sign(&mut text, self.y);
        text
    }

    /// Whether a monitor is listed before another: the primary one first, then from top to
    /// bottom, from left to right, and by name.
    pub open spec fn listed_before(&self, other: &Monitor) -> bool {
        if self.primary != other.primary {
            self.primary
        } else if self.y != other.y {
            self.y < other.y
        } else if self.x != other.x {
            self.x < other.x
        } else {
            comes_before(self.name@, other.name@)
        }
    }

    fn is_listed_before(&self, other: &Monitor) -> (result: bool)
        ensures
            result == self.listed_before(other),
    {
        if self.primary != other.primary {
            self.primary
        } else if self.y != other.y {
            self.y < other.y
        } else if self.x != other.x {
            self.x < other.x
        } else {
            let own: Vec<char> = characters(self.name.as_str());
            let theirs: Vec<char> = characters(other.name.as_str());
            precedes(own.as_slice(), theirs.as_slice())
        }
    }
}

/// A sorted list with one more monitor, behind those that it does not come before.
pub open spec fn inserted(monitors: Seq<Monitor>, monitor: Monitor) -> Seq<Monitor>
    decreases monitors.len(),
{
    if monitors.len() == 0 || !monitor.listed_before(&monitors.last()) {
        monitors.push(monitor)
    } else {
        inserted(monitors.drop_last(), monitor).push(monitors.last())
    }
}

/// The monitors in the order in which they are listed; equal ones keep their order.
pub open spec fn listed(monitors: Seq<Monitor>) -> Seq<Monitor>
    decreases monitors.len(),
{
    if monitors.len() == 0 {
        monitors
    } else {
        inserted(listed(monitors.drop_last()), monitors.last())
    }
}

proof fn lemma_inserted_at(monitors: Seq<Monitor>, monitor: Monitor, position: int)
    requires
        0 <= position <= monitors.len(),
        forall|i: int|
            #![trigger monitors[i]]
            position <= i < monitors.len() ==> monitor.listed_before(&monitors[i]),
        position > 0 ==> !monitor.listed_before(&monitors[position - 1]),
    ensures
        inserted(monitors, monitor) == monitors.insert(position, monitor),
    decreases monitors.len(),
{
    if position == monitors.len() {
        assert(monitors.insert(position, monitor) =~= monitors.push(monitor));
    } else {
        let front = monitors.drop_last();
        assert(monitor.listed_before(&monitors[monitors.len() - 1]));
        assert forall|i: int|
            #![trigger front[i]]
            position <= i < front.len() implies monitor.listed_before(&front[i]) by {
            assert(front[i] == monitors[i]);
        }
        lemma_inserted_at(front, monitor, position);
        assert(monitors.insert(position, monitor) =~= front.insert(position, monitor).push(
            monitors.last(),
        ));
    }
}

/// Whether no monitor is listed before an earlier one.
pub open spec fn is_listed(monitors: Seq<Monitor>) -> bool {
    forall|i: int, j: int|
        #![trigger monitors[i], monitors[j]]
        0 <= i < j < monitors.len() ==> !monitors[j].listed_before(&monitors[i])
}

proof fn lemma_order(a: Monitor, b: Monitor, c: Monitor)
    ensures
        a.listed_before(&b) ==> !b.listed_before(&a),
        a.listed_before(&b) && !c.listed_before(&b) ==> a.listed_before(&c),
{
    lemma_dictionary_order(a.name@, b.name@);
    lemma_dictionary_order(b.name@, c.name@);
    lemma_dictionary_order(a.name@, c.name@);
    if comes_before(a.name@, b.name@) && comes_before(b.name@, c.name@) {
        lemma_dictionary_order_transitive(a.name@, b.name@, c.name@);
    }
    if comes_before(c.name@, a.name@) && comes_before(a.name@, b.name@) {
        lemma_dictionary_order_transitive(c.name@, a.name@, b.name@);
    }
}

proof fn lemma_inserted_is_listed(monitors: Seq<Monitor>, monitor: Monitor)
    requires
        is_listed(monitors),
    ensures
        is_listed(inserted(monitors, monitor)),
        inserted(monitors, monitor).len() == monitors.len() + 1,
        inserted(monitors, monitor).to_multiset() == monitors.to_multiset().insert(monitor),
        forall|i: int|
            0 <= i < inserted(monitors, monitor).len() ==> #[trigger] inserted(monitors, monitor)[i]
                == monitor || monitors.contains(inserted(monitors, monitor)[i]),
    decreases monitors.len(),
{
    broadcast use vstd::seq_lib::group_to_multiset_ensures;

    let after = inserted(monitors, monitor);
    if monitors.len() == 0 || !monitor.listed_before(&monitors.last()) {
        assert forall|i: int, j: int|
            #![trigger after[i], after[j]]
            0 <= i < j < after.len() implies !after[j].listed_before(&after[i]) by {
            if j == monitors.len() {
                if monitor.listed_before(&monitors[i]) && i < monitors.len() - 1 {
                    lemma_order(monitor, monitors[i], monitors.last());
                }
            }
        }
    } else {
        let front = monitors.drop_last();
        let last = monitors.last();
        assert forall|i: int, j: int|
            #![trigger front[i], front[j]]
            0 <= i < j < front.len() implies !front[j].listed_before(&front[i]) by {
            assert(front[i] == monitors[i] && front[j] == monitors[j]);
        }
        lemma_inserted_is_listed(front, monitor);
        let inner = inserted(front, monitor);
        assert forall|i: int, j: int|
            #![trigger after[i], after[j]]
            0 <= i < j < after.len() implies !after[j].listed_before(&after[i]) by {
            if j < inner.len() {
                assert(after[i] == inner[i] && after[j] == inner[j]);
            } else {
                assert(after[i] == inner[i]);
                lemma_order(monitor, last, last);
                if inner[i] != monitor {
                    let k = choose|k: int| 0 <= k < front.len() && front[k] == inner[i];
                    assert(monitors[k] == inner[i]);
                    assert(!monitors[monitors.len() - 1].listed_before(&monitors[k]));
                }
            }
        }
        assert(monitors =~= front.push(last));
        assert(after.to_multiset() =~= monitors.to_multiset().insert(monitor));
        assert forall|i: int| 0 <= i < after.len() implies #[trigger] after[i] == monitor
            || monitors.contains(after[i]) by {
            if i < inner.len() {
                assert(after[i] == inner[i]);
                if inner[i] != monitor {
                    let k = choose|k: int| 0 <= k < front.len() && front[k] == inner[i];
                    assert(monitors[k] == after[i]);
                }
            } else {
                assert(monitors[monitors.len() - 1] == after[i]);
            }
        }
    }
}

/// Listing brings the monitors into order and neither adds nor loses one.
pub proof fn lemma_listing_sorts_the_same_monitors(monitors: Seq<Monitor>)
    ensures
        is_listed(listed(monitors)),
        listed(monitors).to_multiset() == monitors.to_multiset(),
        listed(monitors).len() == monitors.len(),
    decreases monitors.len(),
{
    broadcast use vstd::seq_lib::group_to_multiset_ensures;

    if monitors.len() > 0 {
        lemma_listing_sorts_the_same_monitors(monitors.drop_last());
        lemma_inserted_is_listed(listed(monitors.drop_last()), monitors.last());
        assert(monitors =~= monitors.drop_last().push(monitors.last()));
    }
}

/// Brings the monitors into the order in which they are listed.
pub fn sort_monitors(monitors: &mut Vec<Monitor>)
    ensures
        final(monitors)@ == listed(old(monitors)@),
{
    let ghost all = monitors@;
    let mut sorted: Vec<Monitor> = Vec::new();
    let ghost mut done: int = 0;
    assert(all.take(0) =~= Seq::<Monitor>::empty());
    assert(all.skip(0) =~= all);
    while monitors.len() > 0
        invariant
            0 <= done <= all.len(),
            monitors@ == all.skip(done),
            sorted@ == listed(all.take(done)),
        decreases monitors@.len(),
    {
        let monitor: Monitor = monitors.remove(0);
        assert(monitor == all[done]);
        let mut position: usize = sorted.len();
        while position > 0 && monitor.is_listed_before(&sorted[position - 1])
            invariant
                position <= sorted@.len(),
                forall|i: int|
                    #![trigger sorted@[i]]
                    position <= i < sorted@.len() ==> monitor.listed_before(&sorted@[i]),
            decreases position,
        {
            position = position - 1;
        }
        proof {
            lemma_inserted_at(sorted@, monitor, position as int);
            assert(all.take(done + 1).drop_last() =~= all.take(done));
            assert(all.skip(done).remove(0) =~= all.skip(done + 1));
            done = done + 1;
        }
        sorted.insert(position, monitor);
    }
    assert(all.take(done) =~= all);
    *monitors = sorted;
}

/// The first monitor from `start` on with a name, or the number of monitors.
pub open spec fn named_from(monitors: Seq<Monitor>, name: Seq<char>, start: int) -> int
    decreases monitors.len() - start,
{
    if start >= monitors.len() {
        monitors.len() as int
    } else if monitors[start].name@ == name {
        start
    } else {
        named_from(monitors, name, start + 1)
    }
}

/// The first primary monitor from `start` on, or the number of monitors.
pub open spec fn primary_from(monitors: Seq<Monitor>, start: int) -> int
    decreases monitors.len() - start,
{
    if start >= monitors.len() {
        monitors.len() as int
    } else if monitors[start].primary {
        start
    } else {
        primary_from(monitors, start + 1)
    }
}

/// Which monitor is captured: the one with the wanted name; or else the primary one, or the first.
pub open spec fn selected(monitors: Seq<Monitor>, wanted: Option<Seq<char>>) -> Option<int> {
    match wanted {
        Some(name) => if named_from(monitors, name, 0) < monitors.len() {
            Some(named_from(monitors, name, 0))
        } else {
            None
        },
        None => if primary_from(monitors, 0) < monitors.len() {
            Some(primary_from(monitors, 0))
        } else if monitors.len() > 0 {
            Some(0)
        } else {
            None
        },
    }
}

/// Which monitor is captured.
pub fn select_monitor(monitors: &[Monitor], wanted: Option<&str>) -> (index: Option<usize>)
    ensures
        match index {
            Some(index) => index < monitors@.len() && selected(
                monitors@,
                match wanted {
                    Some(name) => Some(name@),
                    None => None,
                },
            ) == Some(index as int),
            None => selected(
                monitors@,
                match wanted {
                    Some(name) => Some(name@),
                    None => None,
                },
            ) is None,
        },
{
    match wanted {
        Some(name) => {
            let mut index: usize = 0;
            while index < monitors.len()
                invariant
                    wanted == Some(name),
                    index <= monitors@.len(),
                    named_from(monitors@, name@, 0) == named_from(monitors@, name@, index as int),
                decreases monitors@.len() - index,
            {
                let own: Vec<char> = characters(monitors[index].name.as_str());
                if spells(own.as_slice(), name) {
                    return Some(index);
                }
                index = index + 1;
            }
            None
        },
        None => {
            let mut index: usize = 0;
            while index < monitors.len()
                invariant
                    wanted is None,
                    index <= monitors@.len(),
                    primary_from(monitors@, 0) == primary_from(monitors@, index as int),
                decreases monitors@.len() - index,
            {
                if monitors[index].primary {
                    return Some(index);
                }
                index = index + 1;
            }
            if monitors.len() > 0 {
                Some(0)
            } else {
                None
            }
        },
    }
}

/// Whether a session looks like one of X11: it says so, or it names a display.
pub open spec fn looks_like_x11(session_type: Seq<char>, has_display: bool) -> bool {
    crate::text::ascii_lowercase(session_type) == "x11"@ || has_display
}

/// An offset starts with its sign, and its digits are those of its size.
pub proof fn lemma_offsets_carry_their_sign(value: int)
    ensures
        with_sign(value)[0] == if value < 0 {
            '-'
        } else {
            '+'
        },
        digits_value(with_sign(value).skip(1)) == if value < 0 {
            -value
        } else {
            value
        },
{
    let size = if value < 0 {
        -value
    } else {
        value
    };
    lemma_decimal_round_trips(size as nat);
    assert(with_sign(value).skip(1) =~= decimal(size as nat));
}

/// A geometry is the width and, behind the cross, the height and the two offsets.
pub proof fn lemma_geometries_are_taken_apart(monitor: Monitor)
    ensures
        split_once(monitor.geometry_text(), 'x') == Some(
            (
                decimal(monitor.width as nat),
                decimal(monitor.height as nat) + with_sign(monitor.x as int) + with_sign(
                    monitor.y as int,
                ),
            ),
        ),
{
    reveal_strlit("x");
    let before = decimal(monitor.width as nat);
    let after = decimal(monitor.height as nat) + with_sign(monitor.x as int) + with_sign(
        monitor.y as int,
    );
    lemma_decimal_round_trips(monitor.width as nat);
    if before.contains('x') {
        let i = choose|i: int| 0 <= i < before.len() && before[i] == 'x';
        assert(is_digit(before[i]));
    }
    lemma_texts_are_taken_apart(before, 'x', after);
    assert(monitor.geometry_text() =~= before + seq!['x'] + after);
}

/// A session is one of X11 where its type says so, in letters of either case, or where there is a
/// display.
pub proof fn lemma_session_types_are_read_in_either_case(session_type: Seq<char>, has_display: bool)
    ensures
        looks_like_x11(session_type, has_display) <==> has_display || (session_type.len() == 3 && (
        session_type[0] == 'x' || session_type[0] == 'X') && session_type[1] == '1'
            && session_type[2] == '1'),
{
    reveal_strlit("x11");
    let lower = crate::text::ascii_lowercase(session_type);
    assert(lower.len() == session_type.len());
    if lower == "x11"@ {
        assert(lower[0] == 'x' && lower[1] == '1' && lower[2] == '1');
    }
    if session_type.len() == 3 {
        assert(lower[0] == crate::text::ascii_lower(session_type[0]));
        assert(lower[1] == crate::text::ascii_lower(session_type[1]));
        assert(lower[2] == crate::text::ascii_lower(session_type[2]));
        if lower[0] == 'x' && lower[1] == '1' && lower[2] == '1' {
            assert(lower =~= "x11"@);
        }
    }
}

/// The monitor that is captured is the first one with the wanted name, or, where none was named,
/// the first primary one, or else the first of all.
pub proof fn lemma_monitors_are_selected(monitors: Seq<Monitor>, name: Seq<char>, index: int)
    requires
        0 <= index < monitors.len(),
    ensures
        monitors[index].name@ == name && (forall|i: int|
            0 <= i < index ==> (#[trigger] monitors[i]).name@ != name) ==> selected(
            monitors,
            Some(name),
        ) == Some(index),
        (forall|i: int| 0 <= i < monitors.len() ==> (#[trigger] monitors[i]).name@ != name)
            ==> selected(monitors, Some(name)) is None,
        monitors[index].primary && (forall|i: int|
            0 <= i < index ==> !(#[trigger] monitors[i]).primary) ==> selected(monitors, None)
            == Some(index),
        (forall|i: int| 0 <= i < monitors.len() ==> !(#[trigger] monitors[i]).primary) ==> selected(
            monitors,
            None,
        ) == Some(0int),
{
    lemma_named_from(monitors, name, 0);
    lemma_primary_from(monitors, 0);
}

proof fn lemma_named_from(monitors: Seq<Monitor>, name: Seq<char>, start: int)
    requires
        0 <= start <= monitors.len(),
    ensures
        start <= named_from(monitors, name, start) <= monitors.len(),
        named_from(monitors, name, start) < monitors.len() ==> monitors[named_from(
            monitors,
            name,
            start,
        )].name@ == name,
        forall|i: int|
            start <= i < named_from(monitors, name, start) ==> (#[trigger] monitors[i]).name@
                != name,
    decreases monitors.len() - start,
{
    if start < monitors.len() && monitors[start].name@ != name {
        lemma_named_from(monitors, name, start + 1);
    }
}

proof fn lemma_primary_from(monitors: Seq<Monitor>, start: int)
    requires
        0 <= start <= monitors.len(),
    ensures
        start <= primary_from(monitors, start) <= monitors.len(),
        primary_from(monitors, start) < monitors.len() ==> monitors[primary_from(
            monitors,
            start,
        )].primary,
        forall|i: int|
            start <= i < primary_from(monitors, start) ==> !(#[trigger] monitors[i]).primary,
    decreases monitors.len() - start,
{
    if start < monitors.len() && !monitors[start].primary {
        lemma_primary_from(monitors, start + 1);
    }
}

/// Primary monitors are listed first, then those higher up, those further left, and last by name.
pub proof fn lemma_monitors_are_listed_by_place(first: Monitor, second: Monitor)
    ensures
        first.primary && !second.primary ==> first.listed_before(&second)
            && !second.listed_before(&first),
        first.primary == second.primary && first.y < second.y ==> first.listed_before(&second)
            && !second.listed_before(&first),
        first.primary == second.primary && first.y == second.y && first.x < second.x
            ==> first.listed_before(&second) && !second.listed_before(&first),
        first.primary == second.primary && first.y == second.y && first.x == second.x ==> (
        first.listed_before(&second) <==> comes_before(first.name@, second.name@)),
{
}

/// Where frames are captured. A session that looks like one of X11 is captured there, and the
/// connection is tried first: there is no silent way back to the portal.
pub fn resolve_backend(preference: BackendPreference, session_type: &str, has_display: bool) -> (backend:
    Backend)
    ensures
        backend == match preference {
            BackendPreference::Portal => Backend::Portal,
            BackendPreference::X11 => Backend::X11,
            BackendPreference::Auto => if looks_like_x11(session_type@, has_display) {
                Backend::X11
            } else {
                Backend::Portal
            },
        },
{
    match preference {
        BackendPreference::Portal => Backend::Portal,
        BackendPreference::X11 => Backend::X11,
        BackendPreference::Auto => {
            let lower: Vec<char> = crate::text::to_ascii_lowercase(session_type);
            if has_display || spells(lower.as_slice(), "x11") {
                Backend::X11
            } else {
                Backend::Portal
            }
        },
    }
}

/// Options that the place of capture does not have.
#[derive(Clone, Copy, Debug, PartialEq, Eq, Structural)]
pub enum SourceConflict {
    ChooserWithX11,
    DisplayWithPortal,
}

/// Checks the source options against the place of capture. The result says whether the monitor
/// has to be looked up now.
pub fn validate_source_options(
    backend: Backend,
    has_display_name: bool,
    force_chooser: bool,
    extend: bool,
) -> (result: Result<bool, SourceConflict>)
    ensures
        result == match backend {
            Backend::X11 => if force_chooser {
                Err::<bool, SourceConflict>(SourceConflict::ChooserWithX11)
            } else {
                Ok(!extend)
            },
            Backend::Portal => if has_display_name {
                Err(SourceConflict::DisplayWithPortal)
            } else {
                Ok(false)
            },
        },
{
    match backend {
        Backend::X11 => if force_chooser {
            Err(SourceConflict::ChooserWithX11)
        } else {
            Ok(!extend)
        },
        Backend::Portal => if has_display_name {
            Err(SourceConflict::DisplayWithPortal)
        } else {
            Ok(false)
        },
    }
}

} // verus!
