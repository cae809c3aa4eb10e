//! The interface: the named slider settings with their reset button, and the
//! colours of the slider thumbs and of the button.

use vstd::prelude::*;

verus! {

/// What a click on a slider's track does.
#[derive(PartialEq, Eq, Structural, Clone, Copy, Debug)]
pub enum TrackClickMode {
    /// The thumb is dragged from where it is.
    Drag,
    /// The value moves one step towards the click.
    Step,
    /// The thumb jumps to the click.
    Snap,
}

/// The setting held by one slider.
#[derive(PartialEq, Eq, Structural, Clone, Copy, Debug)]
pub struct SliderState<V> {
    /// The slider's current value.
    pub slider_value: V,
    /// What a click on its track does.
    pub slider_click: TrackClickMode,
}

/// The slider that sets how fast a held click grows a planet.
pub const PLANET_CREATION_SPEED: &'static str = "Planet Creation Speed";

/// The slider that scales the velocity given to a thrown planet.
pub const THROW_STRENGTH: &'static str = "Throw Strength";

/// The slider that scales gravity.
pub const GRAVITY_MULTIPLIER: &'static str = "Gravity Multiplier";

/// The settings of all sliders, found by the slider's name.
pub struct SliderWidgetStates<V> {
    sliders: Vec<(String, SliderState<V>)>,
}

impl<V> SliderWidgetStates<V> {
    /// No two sliders share a name.
    #[verifier::type_invariant]
    closed spec fn names_unique(self) -> bool {
        forall|i: int, j: int|
            0 <= i < self.sliders@.len() && 0 <= j < self.sliders@.len() && i != j
                ==> (#[trigger] self.sliders@[i]).0@ != (#[trigger] self.sliders@[j]).0@
    }

    /// The position of the slider named `name`.
    closed spec fn position(self, name: Seq<char>) -> int {
        choose|i: int| 0 <= i < self.sliders@.len() && (#[trigger] self.sliders@[i]).0@ == name
    }

    /// The slider settings, by name.
    pub closed spec fn settings(self) -> Map<Seq<char>, SliderState<V>> {
        Map::new(
            |name: Seq<char>|
                exists|i: int| 0 <= i < self.sliders@.len() && (#[trigger] self.sliders@[i]).0@ == name,
            |name: Seq<char>| self.sliders@[self.position(name)].1,
        )
    }
}

impl<V> View for SliderWidgetStates<V> {
    type V = Map<Seq<char>, SliderState<V>>;

    open spec fn view(&self) -> Map<Seq<char>, SliderState<V>> {
        self.settings()
    }
}

/// The settings of the three sliders when the interface starts: every
/// slider at `value`, with clicks snapping the thumb.
pub open spec fn initial_sliders<V>(value: V) -> Map<Seq<char>, SliderState<V>> {
    map![
        PLANET_CREATION_SPEED@ => SliderState { slider_value: value, slider_click: TrackClickMode::Snap },
        THROW_STRENGTH@ => SliderState { slider_value: value, slider_click: TrackClickMode::Snap },
        GRAVITY_MULTIPLIER@ => SliderState { slider_value: value, slider_click: TrackClickMode::Snap },
    ]
}

/// The setting `s` with its value replaced by `value`.
pub open spec fn with_value<V>(s: SliderState<V>, value: V) -> SliderState<V> {
    SliderState { slider_value: value, slider_click: s.slider_click }
}

/// Every slider of `m` put back to `value`, each keeping what a click on its
/// track does.
pub open spec fn reset_all<V>(m: Map<Seq<char>, SliderState<V>>, value: V) -> Map<
    Seq<char>,
    SliderState<V>,
> {
    Map::new(|name: Seq<char>| m.contains_key(name), |name: Seq<char>| with_value(m[name], value))
}

/// Law: after a slider's value is set, reading that slider gives the value
/// that was set and the same track-click mode as before, and every other
/// slider reads as before.
pub proof fn lemma_set_then_read<V>(m: Map<Seq<char>, SliderState<V>>, name: Seq<char>, value: V)
    requires
        m.contains_key(name),
    ensures
        m.insert(name, with_value(m[name], value)).contains_key(name),
        m.insert(name, with_value(m[name], value))[name].slider_value == value,
        m.insert(name, with_value(m[name], value))[name].slider_click == m[name].slider_click,
        m.insert(name, with_value(m[name], value)).dom() == m.dom(),
        forall|other: Seq<char>|
            other != name && #[trigger] m.contains_key(other) ==> m.insert(
                name,
                with_value(m[name], value),
            )[other] == m[other],
{
    assert(m.insert(name, with_value(m[name], value)).dom() =~= m.dom());
}

/// Law: resetting keeps the set of sliders and their track-click modes,
/// resetting twice is the same as resetting once, and resetting the
/// starting sliders to `value` gives the starting sliders at `value`.
pub proof fn lemma_reset_laws<V>(m: Map<Seq<char>, SliderState<V>>, value: V, start: V)
    ensures
        reset_all(m, value).dom() == m.dom(),
        forall|name: Seq<char>|
            #[trigger] m.contains_key(name) ==> reset_all(m, value)[name].slider_click
                == m[name].slider_click && reset_all(m, value)[name].slider_value == value,
        reset_all(reset_all(m, value), value) == reset_all(m, value),
        reset_all(initial_sliders(start), value) == initial_sliders(value),
{
    assert(reset_all(m, value).dom() =~= m.dom());
    assert(reset_all(reset_all(m, value), value) =~= reset_all(m, value));
    assert(reset_all(initial_sliders(start), value) =~= initial_sliders(value));
}

/// The settings after the value changes `changes`, in order: each change
/// names a slider and its new value, as `set_slider_value` applies it.
pub open spec fn after_changes<V>(
    m: Map<Seq<char>, SliderState<V>>,
    changes: Seq<(Seq<char>, V)>,
) -> Map<Seq<char>, SliderState<V>>
    decreases changes.len(),
{
    if changes.len() == 0 {
        m
    } else {
        let prev = after_changes(m, changes.drop_last());
        let (name, value) = changes.last();
        if prev.contains_key(name) {
            prev.insert(name, with_value(prev[name], value))
        } else {
            prev
        }
    }
}

proof fn lemma_changes_keep_shape<V>(m: Map<Seq<char>, SliderState<V>>, changes: Seq<(Seq<char>, V)>)
    ensures
        after_changes(m, changes).dom() == m.dom(),
        forall|name: Seq<char>|
            #[trigger] m.contains_key(name) ==> after_changes(m, changes)[name].slider_click
                == m[name].slider_click,
    decreases changes.len(),
{
    if changes.len() > 0 {
        lemma_changes_keep_shape(m, changes.drop_last());
        let prev = after_changes(m, changes.drop_last());
        let (name, value) = changes.last();
        if prev.contains_key(name) {
            assert(prev.insert(name, with_value(prev[name], value)).dom() =~= prev.dom());
        }
    }
}

/// Law: whatever value changes the starting sliders go through, the same
/// three sliders remain, each keeping its snapping clicks; resetting them
/// to `value` then gives exactly the starting sliders at `value`, and a
/// second reset changes nothing.
pub proof fn lemma_reset_after_changes<V>(start: V, changes: Seq<(Seq<char>, V)>, value: V)
    ensures
        after_changes(initial_sliders(start), changes).dom() == initial_sliders(start).dom(),
        forall|name: Seq<char>|
            #[trigger] initial_sliders(start).contains_key(name) ==> after_changes(
                initial_sliders(start),
                changes,
            )[name].slider_click == TrackClickMode::Snap,
        reset_all(after_changes(initial_sliders(start), changes), value) == initial_sliders(value),
        reset_all(reset_all(after_changes(initial_sliders(start), changes), value), value)
            == initial_sliders(value),
{
    let m = after_changes(initial_sliders(start), changes);
    lemma_changes_keep_shape(initial_sliders(start), changes);
    assert(reset_all(m, value) =~= initial_sliders(value));
    lemma_reset_laws(m, value, start);
}

impl<V: Copy> SliderWidgetStates<V> {
    /// The three sliders, each at `value`, with clicks snapping the thumb.
    pub fn with_defaults(value: V) -> (states: Self)
        ensures
            states@ == initial_sliders(value),
            states@.dom() == set![PLANET_CREATION_SPEED@, THROW_STRENGTH@, GRAVITY_MULTIPLIER@],
            states@[PLANET_CREATION_SPEED@] == (SliderState {
                slider_value: value,
                slider_click: TrackClickMode::Snap,
            }),
            states@[THROW_STRENGTH@] == (SliderState {
                slider_value: value,
                slider_click: TrackClickMode::Snap,
            }),
            states@[GRAVITY_MULTIPLIER@] == (SliderState {
                slider_value: value,
                slider_click: TrackClickMode::Snap,
            }),
    {
        let snap = SliderState { slider_value: value, slider_click: TrackClickMode::Snap };
        let mut sliders: Vec<(String, SliderState<V>)> = Vec::new();
        sliders.push((PLANET_CREATION_SPEED.to_owned(), snap));
        sliders.push((THROW_STRENGTH.to_owned(), snap));
        sliders.push((GRAVITY_MULTIPLIER.to_owned(), snap));
        proof {
            reveal_strlit("Planet Creation Speed");
            reveal_strlit("Throw Strength");
            reveal_strlit("Gravity Multiplier");
            assert(PLANET_CREATION_SPEED@ == "Planet Creation Speed"@);
            assert(THROW_STRENGTH@ == "Throw Strength"@);
            assert(GRAVITY_MULTIPLIER@ == "Gravity Multiplier"@);
            assert(PLANET_CREATION_SPEED@.len() == 21);
            assert(THROW_STRENGTH@.len() == 14);
            assert(GRAVITY_MULTIPLIER@.len() == 18);
            assert(PLANET_CREATION_SPEED@ != THROW_STRENGTH@);
            assert(PLANET_CREATION_SPEED@ != GRAVITY_MULTIPLIER@);
            assert(THROW_STRENGTH@ != GRAVITY_MULTIPLIER@);
        }
        let states = SliderWidgetStates { sliders };
        proof {
            let m = states.settings();
            assert(states.sliders@[0].0@ == PLANET_CREATION_SPEED@);
            assert(states.sliders@[1].0@ == THROW_STRENGTH@);
            assert(states.sliders@[2].0@ == GRAVITY_MULTIPLIER@);
            assert(m.dom() =~= initial_sliders(value).dom());
            assert(m =~= initial_sliders(value));
            assert(m.dom() =~= set![PLANET_CREATION_SPEED@, THROW_STRENGTH@, GRAVITY_MULTIPLIER@]);
        }
        states
    }

    /// Where the slider named `name` sits in the table, if there is one.
    fn find(&self, name: &String) -> (found: Option<usize>)
        ensures
            match found {
                Some(i) => i < self.sliders@.len() && self.sliders@[i as int].0@ == name@,
                None => forall|i: int|
                    0 <= i < self.sliders@.len() ==> (#[trigger] self.sliders@[i]).0@ != name@,
            },
    {
        let mut i: usize = 0;
        while i < self.sliders.len()
            invariant
                i <= self.sliders@.len(),
                forall|j: int| 0 <= j < i ==> (#[trigger] self.sliders@[j]).0@ != name@,
            decreases self.sliders@.len() - i,
        {
            if self.sliders[i].0 == *name {
                return Some(i);
            }
            i = i + 1;
        }
        None
    }

    /// The setting of the slider named `name`, if there is one.
    pub fn slider(&self, name: &str) -> (state: Option<SliderState<V>>)
        ensures
            state == (if self@.contains_key(name@) {
                Some(self@[name@])
            } else {
                None
            }),
    {
        proof {
            use_type_invariant(self);
        }
        let key = name.to_owned();
        match self.find(&key) {
            Some(i) => {
                let st = self.sliders[i].1;
                proof {
                    assert(self@.contains_key(name@));
                    let p = self.position(name@);
                    assert(self.sliders@[p].0@ == name@);
                }
                Some(st)
            },
            None => None,
        }
    }

    /// Sets the value of the slider named `name`, keeping what a click on its
    /// track does.
    pub fn set_slider_value(&mut self, name: &str, value: V)
        requires
            old(self)@.contains_key(name@),
        ensures
            final(self)@ == old(self)@.insert(name@, with_value(old(self)@[name@], value)),
    {
        proof {
            use_type_invariant(&*self);
        }
        let key = name.to_owned();
        let found = self.find(&key);
        if let Some(i) = found {
            let click = self.sliders[i].1.slider_click;
            let ghost before = self.sliders@;
            let mut sliders: Vec<(String, SliderState<V>)> = Vec::new();
        std::mem::swap(&mut sliders, &mut self.sliders);
            sliders.set(i, (key, SliderState { slider_value: value, slider_click: click }));
            self.sliders = sliders;
            proof {
                let p = choose|j: int| 0 <= j < before.len() && (#[trigger] before[j]).0@ == name@;
                assert(p == i);
                let m = self.settings();
                let expected = old(self)@.insert(
                    name@,
                    SliderState { slider_value: value, slider_click: click },
                );
                assert(self.sliders@[i as int].0@ == name@);
                assert(m.contains_key(name@));
                assert forall|k: Seq<char>| #[trigger] m.contains_key(k) <==> expected.contains_key(k) by {
                    if expected.contains_key(k) && k != name@ {
                        let j = choose|j: int| 0 <= j < before.len() && (#[trigger] before[j]).0@ == k;
                        assert(self.sliders@[j].0@ == k);
                    }
                    if m.contains_key(k) && k != name@ {
                        let j = choose|j: int| 0 <= j < self.sliders@.len() && (#[trigger] self.sliders@[j]).0@ == k;
                        assert(before[j].0@ == k);
                    }
                }
                assert(m.dom() =~= expected.dom());
                assert forall|k: Seq<char>| #[trigger] m.contains_key(k) implies m[k] == expected[k] by {
                    let j = self.position(k);
                    if k != name@ {
                        let jo = old(self).position(k);
                        assert(before[j].0@ == k);
                        assert(jo == j);
                    }
                }
                assert(m =~= expected);
            }
        }
    }

    /// Puts every slider back to `value`, keeping what a click on its track
    /// does.
    pub fn reset_to_defaults(&mut self, value: V)
        ensures
            final(self)@ == reset_all(old(self)@, value),
    {
        proof {
            use_type_invariant(&*self);
        }
        let ghost before = self.sliders@;
        let mut sliders: Vec<(String, SliderState<V>)> = Vec::new();
        std::mem::swap(&mut sliders, &mut self.sliders);
        let mut i: usize = 0;
        while i < sliders.len()
            invariant
                i <= sliders@.len(),
                sliders@.len() == before.len(),
                forall|j: int| 0 <= j < sliders@.len() ==> (#[trigger] sliders@[j]).0@ == before[j].0@,
                forall|j: int|
                    0 <= j < i ==> (#[trigger] sliders@[j]).1 == with_value(before[j].1, value),
                forall|j: int| i <= j < sliders@.len() ==> (#[trigger] sliders@[j]).1 == before[j].1,
            decreases sliders@.len() - i,
        {
            let click = sliders[i].1.slider_click;
            let name = sliders[i].0.clone();
            sliders.set(i, (name, SliderState { slider_value: value, slider_click: click }));
            i = i + 1;
        }
        self.sliders = sliders;
        proof {
            let m = self.settings();
            assert forall|k: Seq<char>| #[trigger] m.contains_key(k) <==> old(self)@.contains_key(k) by {
                if old(self)@.contains_key(k) {
                    let j = choose|j: int| 0 <= j < before.len() && (#[trigger] before[j]).0@ == k;
                    assert(self.sliders@[j].0@ == k);
                }
                if m.contains_key(k) {
                    let j = choose|j: int| 0 <= j < self.sliders@.len() && (#[trigger] self.sliders@[j]).0@ == k;
                    assert(before[j].0@ == k);
                }
            }
            assert(m.dom() =~= old(self)@.dom());
            assert forall|k: Seq<char>| #[trigger] old(self)@.contains_key(k) implies m[k] == with_value(
                old(self)@[k],
                value,
            ) by {
                let j = self.position(k);
                let jo = old(self).position(k);
                assert(before[j].0@ == k);
                assert(jo == j);
            }
            assert(m =~= reset_all(old(self)@, value));
        }
    }
}

/// The colour of a slider thumb.
#[derive(PartialEq, Eq, Structural, Clone, Copy, Debug)]
pub enum ThumbShade {
    /// Greyed out: the slider is disabled.
    Disabled,
    /// The thumb colour lightened: the slider is hovered or dragged.
    Lightened,
    /// The plain thumb colour.
    Plain,
}

/// The thumb colour: grey when disabled, lightened when hovered (or
/// dragged), plain otherwise.
pub fn thumb_color(disabled: bool, hovered: bool) -> (shade: ThumbShade)
    ensures
        disabled ==> shade == ThumbShade::Disabled,
        !disabled && hovered ==> shade == ThumbShade::Lightened,
        !disabled && !hovered ==> shade == ThumbShade::Plain,
{
    if disabled {
        ThumbShade::Disabled
    } else if hovered {
        ThumbShade::Lightened
    } else {
        ThumbShade::Plain
    }
}

/// The fill of the reset button.
#[derive(PartialEq, Eq, Structural, Clone, Copy, Debug)]
pub enum ButtonFill {
    Normal,
    Hovered,
    Pressed,
}

/// The border colour of the reset button.
#[derive(PartialEq, Eq, Structural, Clone, Copy, Debug)]
pub enum BorderShade {
    Gray,
    Red,
    White,
    Black,
}

/// How the reset button is drawn.
#[derive(PartialEq, Eq, Structural, Clone, Copy, Debug)]
pub struct ButtonStyle {
    pub fill: ButtonFill,
    pub border: BorderShade,
}

/// How the reset button is drawn: a disabled button is normal with a gray
/// border; an enabled one that is hovered is pressed with a red border when
/// held and hovered with a white border otherwise; an enabled button that is
/// not hovered is normal with a black border, held or not.
pub fn button_style(disabled: bool, hovered: bool, pressed: bool) -> (style: ButtonStyle)
    ensures
        disabled ==> style == (ButtonStyle { fill: ButtonFill::Normal, border: BorderShade::Gray }),
        !disabled && hovered && pressed ==> style == (ButtonStyle {
            fill: ButtonFill::Pressed,
            border: BorderShade::Red,
        }),
        !disabled && hovered && !pressed ==> style == (ButtonStyle {
            fill: ButtonFill::Hovered,
            border: BorderShade::White,
        }),
        !disabled && !hovered ==> style == (ButtonStyle {
            fill: ButtonFill::Normal,
            border: BorderShade::Black,
        }),
{
    if disabled {
        ButtonStyle { fill: ButtonFill::Normal, border: BorderShade::Gray }
    } else if hovered {
        if pressed {
            ButtonStyle { fill: ButtonFill::Pressed, border: BorderShade::Red }
        } else {
            ButtonStyle { fill: ButtonFill::Hovered, border: BorderShade::White }
        }
    } else {
        ButtonStyle { fill: ButtonFill::Normal, border: BorderShade::Black }
    }
}

/// Whether a widget is disabled after a frame in which the toggle key was
/// or was not pressed.
pub open spec fn disabled_after(toggle_pressed: bool, disabled: bool) -> bool {
    if toggle_pressed {
        !disabled
    } else {
        disabled
    }
}

/// Law: pressing the toggle key twice leaves every widget as it was, and
/// one press changes every widget.
pub proof fn lemma_toggle_twice(disabled: bool)
    ensures
        disabled_after(true, disabled_after(true, disabled)) == disabled,
        disabled_after(true, disabled) != disabled,
        disabled_after(false, disabled) == disabled,
{
}

/// Whether a widget is disabled after this frame: the toggle key flips
/// every widget, and without it nothing changes.
pub fn next_disabled(toggle_pressed: bool, disabled: bool) -> (now_disabled: bool)
    ensures
        now_disabled == disabled_after(toggle_pressed, disabled),
        toggle_pressed ==> now_disabled == !disabled,
        !toggle_pressed ==> now_disabled == disabled,
{
    if toggle_pressed {
        !disabled
    } else {
        disabled
    }
}

} // verus!
