//! What the buttons, the text field and the save chord decide. The widgets
//! themselves, and the files, are the caller's.

use vstd::prelude::*;
use vstd::string::StringExecFns;
use crate::commands::{CommandView, EditorCommands, QueueView};
use crate::display::{key_text, typed_text, DisplayWrapper, KeyCode};
use crate::error::EditorError;
use crate::library::DefaultProperties;
use crate::mode::Input;
use crate::property::DynamicProperties;

verus! {

/// Whether a toggle button is armed.
#[derive(Debug, Clone, Copy, PartialEq, Eq, Structural)]
pub struct ButtonToggled(pub bool);

impl Default for ButtonToggled {
    fn default() -> (r: ButtonToggled)
        ensures
            r == ButtonToggled(false),
    {
        ButtonToggled(false)
    }
}

/// What a button is for.
#[derive(Debug, Clone, Copy, PartialEq, Eq, Structural)]
pub enum ButtonFunction {
    Save,
    AddComponent,
}

/// What the pointer does to a button.
#[derive(Debug, Clone, Copy, PartialEq, Eq, Structural)]
pub enum Interaction {
    Clicked,
    Hovered,
    /// The pointer is elsewhere.
    Idle,
}

/// How a button is drawn.
#[derive(Debug, Clone, Copy, PartialEq, Eq, Structural)]
pub enum ButtonMaterial {
    Plain,
    Hovered,
    Clicked,
    Toggled,
}

/// The label of the text field while it is not armed.
pub open spec fn idle_label() -> Seq<char> {
    "Add component"@
}

/// A toggle and the look of its button after `interaction`: a click turns
/// the toggle over and shows the button as toggled or clicked; a hover and
/// no interaction show as themselves and leave the toggle.
pub open spec fn button_after(interaction: Interaction, toggled: Option<ButtonToggled>) -> (
    Option<ButtonToggled>,
    ButtonMaterial,
) {
    match interaction {
        Interaction::Clicked => match toggled {
            Some(ButtonToggled(on)) => (
                Some(ButtonToggled(!on)),
                if !on {
                    ButtonMaterial::Toggled
                } else {
                    ButtonMaterial::Clicked
                },
            ),
            None => (None, ButtonMaterial::Clicked),
        },
        Interaction::Hovered => (toggled, ButtonMaterial::Hovered),
        Interaction::Idle => (toggled, ButtonMaterial::Plain),
    }
}

/// Takes a change of the interaction with a button: turns its toggle, if it
/// has one, over on a click, and returns how the button is drawn.
pub fn button_system(interaction: Interaction, toggled: &mut Option<ButtonToggled>) -> (r:
    ButtonMaterial)
    ensures
        (*final(toggled), r) == button_after(interaction, *old(toggled)),
{
    match interaction {
        Interaction::Clicked => {
            match *toggled {
                Some(ButtonToggled(on)) => {
                    *toggled = Some(ButtonToggled(!on));
                    if !on {
                        ButtonMaterial::Toggled
                    } else {
                        ButtonMaterial::Clicked
                    }
                },
                None => ButtonMaterial::Clicked,
            }
        },
        Interaction::Hovered => ButtonMaterial::Hovered,
        Interaction::Idle => ButtonMaterial::Plain,
    }
}

/// Disarms an armed toggle when `Return` went down.
pub fn button_enter_system(input: &Input, toggled: &mut ButtonToggled)
    ensures
        final(toggled).0 == (old(toggled).0 && !input.just_pressed@.contains(KeyCode::Return)),
{
    if toggled.0 {
        if input.just_pressed(KeyCode::Return) {
            toggled.0 = false;
        }
    }
}

/// Whether the free camera is to be switched on or off: `Q` went down.
pub fn camera_system(input: &Input) -> (r: bool)
    ensures
        r == input.just_pressed@.contains(KeyCode::Q),
{
    input.just_pressed(KeyCode::Q)
}

/// The number of buttons for saving that were clicked.
pub open spec fn clicked_saves(buttons: Seq<(ButtonFunction, Interaction)>) -> nat
    decreases buttons.len(),
{
    if buttons.len() == 0 {
        0
    } else if buttons.last() == (ButtonFunction::Save, Interaction::Clicked) {
        clicked_saves(buttons.drop_last()) + 1
    } else {
        clicked_saves(buttons.drop_last())
    }
}

/// How often the document and the libraries are to be saved in this cycle:
/// once where `S` went down while the left control key is down, and once for
/// each save button whose interaction changed to a click.
pub fn save_system(input: &Input, buttons: &Vec<(ButtonFunction, Interaction)>) -> (r: usize)
    requires
        buttons.len() < usize::MAX,
    ensures
        r == clicked_saves(buttons@) + if input.pressed@.contains(KeyCode::LControl)
            && input.just_pressed@.contains(KeyCode::S) {
            1int
        } else {
            0int
        },
{
    let mut count: usize = 0;
    let mut i: usize = 0;
    assert(buttons@.take(0) =~= Seq::empty());
    while i < buttons.len()
        invariant
            i <= buttons.len(),
            count <= i,
            count == clicked_saves(buttons@.take(i as int)),
        decreases buttons.len() - i,
    {
        assert(buttons@.take(i + 1).drop_last() =~= buttons@.take(i as int));
        let clicked = match buttons[i] {
            (ButtonFunction::Save, Interaction::Clicked) => true,
            _ => false,
        };
        if clicked {
            count += 1;
        }
        i += 1;
    }
    assert(buttons@.take(buttons.len() as int) =~= buttons@);
    if input.pressed(KeyCode::LControl) && input.just_pressed(KeyCode::S) {
        count += 1;
    }
    count
}

/// The text that the keys `struck` type, in their order.
pub open spec fn typed(struck: Seq<KeyCode>, shift: bool) -> Seq<char>
    decreases struck.len(),
{
    if struck.len() == 0 {
        Seq::empty()
    } else {
        typed(struck.drop_last(), shift) + typed_text(struck.last(), shift)
    }
}

/// The text of an armed text field after one cycle: what the keys that went
/// down type is appended, in upper case where the left shift key is down;
/// then, where the backspace key went down, the last character is taken
/// off.
pub open spec fn edited(text: Seq<char>, struck: Seq<KeyCode>, shift: bool) -> Seq<char> {
    let longer = text + typed(struck, shift);
    if struck.contains(KeyCode::Back) && longer.len() > 0 {
        longer.drop_last()
    } else {
        longer
    }
}

/// `String::pop`: takes the last character off, where there is one.
#[verifier::external_body]
fn pop_char(text: &mut String)
    ensures
        final(text)@ == if old(text)@.len() > 0 {
            old(text)@.drop_last()
        } else {
            old(text)@
        },
{
    text.pop();
}

/// Takes the keys of one cycle into the text of an armed text field.
pub fn edit_text(text: &mut String, input: &Input)
    ensures
        final(text)@ == edited(
            old(text)@,
            input.just_pressed@,
            input.pressed@.contains(KeyCode::LShift),
        ),
{
    let shift = input.pressed(KeyCode::LShift);
    let mut i: usize = 0;
    assert(input.just_pressed@.take(0) =~= Seq::empty());
    assert(text@ =~= old(text)@ + typed(input.just_pressed@.take(0), shift));
    while i < input.just_pressed.len()
        invariant
            i <= input.just_pressed.len(),
            text@ == old(text)@ + typed(input.just_pressed@.take(i as int), shift),
        decreases input.just_pressed.len() - i,
    {
        let ghost before = text@;
        assert(input.just_pressed@.take(i + 1).drop_last() =~= input.just_pressed@.take(i as int));
        let key = DisplayWrapper(input.just_pressed[i]);
        let piece = if shift {
            key.as_upper_str()
        } else {
            let lower = key.as_str();
            assert(lower@ =~= typed_text(key.0, false));
            lower
        };
        text.append(piece);
        assert(text@ =~= old(text)@ + (typed(input.just_pressed@.take(i as int), shift)
            + typed_text(key.0, shift)));
        i += 1;
    }
    assert(input.just_pressed@.take(input.just_pressed.len() as int) =~= input.just_pressed@);
    if input.just_pressed(KeyCode::Back) {
        pop_char(text);
    }
}

/// The queue after the bag `component` is queued for each of the widgets
/// `selected`, in order: first the add of the bag, then the sync of the type
/// `name` to the runtime.
pub open spec fn applied_to(
    queue: Seq<CommandView>,
    selected: Seq<u32>,
    name: Seq<char>,
    component: crate::property::BagView,
) -> Seq<CommandView>
    decreases selected.len(),
{
    if selected.len() == 0 {
        queue
    } else {
        applied_to(queue, selected.drop_last(), name, component).push(
            CommandView::InsertOne(selected.last(), component),
        ).push(CommandView::SyncOneToWorld(selected.last(), name))
    }
}

/// Takes a change of the toggle of the text field.
///
/// Armed: the text is cleared. Disarmed: the text is the name of a
/// property; the field shows its idle label again, and where a widget is
/// selected the property of that name is queued for each selected widget.
/// Fails with `UnregisteredType`, after the label is reset, where a widget
/// is selected and the library holds no property of that name.
pub fn text_button_system(
    toggled: ButtonToggled,
    text: &mut String,
    selected: &Vec<u32>,
    properties: &DefaultProperties,
    commands: &mut EditorCommands,
) -> (r: Result<(), EditorError>)
    ensures
        toggled.0 ==> r is Ok && final(text)@ == Seq::<char>::empty() && final(commands)@ == old(
            commands,
        )@,
        !toggled.0 ==> final(text)@ == idle_label(),
        !toggled.0 && (selected.len() == 0 || properties@.contains_key(old(text)@)) ==> r is Ok
            && final(commands)@ == (QueueView {
            queue: applied_to(
                old(commands)@.queue,
                selected@,
                old(text)@,
                properties@[old(text)@],
            ),
            ..old(commands)@
        }),
        !toggled.0 && selected.len() > 0 && !properties@.contains_key(old(text)@) ==> r == Err::<
            (),
            EditorError,
        >(EditorError::UnregisteredType) && final(commands)@ == old(commands)@,
{
    if toggled.0 {
        *text = String::new();
        return Ok(());
    }
    let mut name = "Add component".to_owned();
    core::mem::swap(text, &mut name);
    if selected.len() == 0 {
        return Ok(());
    }
    let mut i: usize = 0;
    assert(selected@.take(0) =~= Seq::empty());
    while i < selected.len()
        invariant
            i <= selected.len(),
            !toggled.0,
            selected.len() > 0,
            name@ == old(text)@,
            text@ == idle_label(),
            i > 0 ==> properties@.contains_key(name@),
            i == 0 ==> commands@ == old(commands)@,
            properties@.contains_key(name@) ==> commands@ == (QueueView {
                queue: applied_to(
                    old(commands)@.queue,
                    selected@.take(i as int),
                    name@,
                    properties@[name@],
                ),
                ..old(commands)@
            }),
        decreases selected.len() - i,
    {
        assert(selected@.take(i + 1).drop_last() =~= selected@.take(i as int));
        match properties.get(name.as_str()) {
            None => {
                return Err(EditorError::UnregisteredType);
            },
            Some(component) => {
                commands.insert_one(selected[i], component);
                commands.sync_one_to_world(selected[i], name.clone());
            },
        }
        i += 1;
    }
    assert(selected@.take(selected.len() as int) =~= selected@);
    Ok(())
}

/// The queue after one add is queued for each of the bags `transforms`, in
/// order, to the entity `widget`.
pub open spec fn updated(
    queue: Seq<CommandView>,
    widget: u32,
    transforms: Seq<crate::property::BagView>,
) -> Seq<CommandView>
    decreases transforms.len(),
{
    if transforms.len() == 0 {
        queue
    } else {
        updated(queue, widget, transforms.drop_last()).push(
            CommandView::InsertOne(widget, transforms.last()),
        )
    }
}

/// Queues, for the selected widget, the transform that it has after each
/// edit event of the cycle: `transforms` holds one bag for each event, in
/// order.
pub fn update_system(commands: &mut EditorCommands, widget: u32, transforms: Vec<DynamicProperties>)
    ensures
        final(commands)@ == (QueueView {
            queue: updated(
                old(commands)@.queue,
                widget,
                crate::entity::bags_view(transforms@),
            ),
            ..old(commands)@
        }),
{
    let ghost bags = crate::entity::bags_view(transforms@);
    let n = transforms.len();
    let mut rest = crate::util::reversed(transforms);
    let mut i: usize = 0;
    assert(bags.take(0) =~= Seq::empty());
    while rest.len() > 0
        invariant
            bags == crate::entity::bags_view(transforms@),
            bags.len() == n,
            i + rest.len() == n,
            forall|k: int| 0 <= k < rest.len() ==> rest[k]@ == bags[n - 1 - k],
            commands@ == (QueueView {
                queue: updated(old(commands)@.queue, widget, bags.take(i as int)),
                ..old(commands)@
            }),
        decreases rest.len(),
    {
        let bag = rest.pop().unwrap();
        assert(bags.take(i + 1).drop_last() =~= bags.take(i as int));
        assert(bags.take(i + 1).last() == bag@);
        commands.insert_one(widget, bag);
        i += 1;
    }
    assert(bags.take(n as int) =~= bags);
}

} // verus!
