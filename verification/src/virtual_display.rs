//! A display without a panel, and the arrangement of the displays around it.
//!
//! The display is made through private interfaces of the system, any of which may
//! be missing; [`advance`] goes through the making step by step. Once it is there
//! it can become the main display, with the old one moved aside or switched off,
//! and all of that is undone at the end.

use vstd::prelude::*;

verus! {

/// What a made display is called.
pub const DISPLAY_NAME: &'static str = "macrdp";

/// The product and the vendor that the display claims to be.
pub const PRODUCT_ID: u32 = 0x6d61_6372;

pub const SERIAL_NUMBER: u32 = 1;

/// The size that the display claims to have, in millimetres.
pub const WIDTH_MM: u32 = 600;

pub const HEIGHT_MM: u32 = 338;

/// Why there is no display.
#[derive(Debug, Clone, Copy, PartialEq, Eq, Structural)]
pub enum DisplayError {
    /// A function of the system is missing, by its place in the list.
    SymbolMissing { index: usize },
    /// A class of the system is missing, by its place in the list.
    ClassMissing { index: usize },
    DescriptorNil,
    CreateNull,
    ModeNil,
    SettingsNil,
    ApplyRefused,
    NoDisplayId,
    /// The function that switches displays off is missing.
    EnablerMissing,
    /// The display is the main one already: switching it off would leave none.
    AlreadyPrimary,
}

/// The functions that are needed, in the order they are looked up.
pub fn symbol_names() -> (r: Vec<&'static str>)
    ensures
        r@.len() == 4,
        r@[0]@ == "CGVirtualDisplayCreate"@,
        r@[1]@ == "CGVirtualDisplayApplySettings"@,
        r@[2]@ == "CGVirtualDisplayGetDisplayID"@,
        r@[3]@ == "CFRelease"@,
{
    let mut r: Vec<&'static str> = Vec::new();
    r.push("CGVirtualDisplayCreate");
    r.push("CGVirtualDisplayApplySettings");
    r.push("CGVirtualDisplayGetDisplayID");
    r.push("CFRelease");
    r
}

/// The classes that are needed, in the order they are looked up.
pub fn class_names() -> (r: Vec<&'static str>)
    ensures
        r@.len() == 4,
        r@[0]@ == "CGVirtualDisplayDescriptor"@,
        r@[1]@ == "CGVirtualDisplaySettings"@,
        r@[2]@ == "CGVirtualDisplayMode"@,
        r@[3]@ == "NSArray"@,
{
    let mut r: Vec<&'static str> = Vec::new();
    r.push("CGVirtualDisplayDescriptor");
    r.push("CGVirtualDisplaySettings");
    r.push("CGVirtualDisplayMode");
    r.push("NSArray");
    r
}

/// Whether `i` is the place of the first thing that was not found.
pub open spec fn first_missing(found: Seq<bool>, i: int) -> bool {
    0 <= i < found.len() && !found[i] && forall|j: int| 0 <= j < i ==> #[trigger] found[j]
}

fn find_missing(found: &Vec<bool>) -> (r: Option<usize>)
    ensures
        match r {
            Some(i) => first_missing(found@, i as int),
            None => forall|j: int| 0 <= j < found@.len() ==> #[trigger] found@[j],
        },
{
    let mut i: usize = 0;
    while i < found.len()
        invariant
            i <= found@.len(),
            forall|j: int| 0 <= j < i ==> #[trigger] found@[j],
        decreases found@.len() - i,
    {
        if !found[i] {
            return Some(i);
        }
        i = i + 1;
    }
    None
}

/// The functions were looked up: all of them, or none, are used.
pub fn load(found: &Vec<bool>) -> (r: Result<(), DisplayError>)
    ensures
        match r {
            Ok(()) => forall|j: int| 0 <= j < found@.len() ==> #[trigger] found@[j],
            Err(e) => e matches DisplayError::SymbolMissing { index } && first_missing(
                found@,
                index as int,
            ),
        },
{
    match find_missing(found) {
        None => Ok(()),
        Some(index) => Err(DisplayError::SymbolMissing { index }),
    }
}

/// How far the making of a display has come: what was just attempted.
#[derive(Debug, Clone, Copy, PartialEq, Eq, Structural)]
pub enum Stage {
    Descriptor,
    Create,
    Mode,
    Settings,
    Apply,
}

/// What the making of a display does next.
#[derive(Debug, Clone, Copy, PartialEq, Eq, Structural)]
pub enum CreateStep {
    Attempt(Stage),
    /// Ask which display it has become.
    AskId,
    /// The display is there.
    Done { display_id: u32 },
    /// Give up; release what was created.
    Fail { error: DisplayError, release: bool },
}

/// The first step, once the classes were looked up.
pub fn create(classes: &Vec<bool>) -> (r: CreateStep)
    ensures
        match r {
            CreateStep::Attempt(stage) => {
                &&& stage == Stage::Descriptor
                &&& forall|j: int| 0 <= j < classes@.len() ==> #[trigger] classes@[j]
            },
            CreateStep::Fail { error, release } => {
                &&& error matches DisplayError::ClassMissing { index }
                &&& first_missing(classes@, index as int)
                &&& !release
            },
            _ => false,
        },
{
    match find_missing(classes) {
        None => CreateStep::Attempt(Stage::Descriptor),
        Some(index) => CreateStep::Fail {
            error: DisplayError::ClassMissing { index },
            release: false,
        },
    }
}

/// Whether something has been created by the time a stage is attempted.
pub open spec fn created_before(stage: Stage) -> bool {
    stage == Stage::Mode || stage == Stage::Settings || stage == Stage::Apply
}

/// The error of a stage.
pub open spec fn stage_error(stage: Stage) -> DisplayError {
    match stage {
        Stage::Descriptor => DisplayError::DescriptorNil,
        Stage::Create => DisplayError::CreateNull,
        Stage::Mode => DisplayError::ModeNil,
        Stage::Settings => DisplayError::SettingsNil,
        Stage::Apply => DisplayError::ApplyRefused,
    }
}

/// The step after a stage.
pub open spec fn after_stage(stage: Stage, success: bool) -> CreateStep {
    if !success {
        CreateStep::Fail { error: stage_error(stage), release: created_before(stage) }
    } else {
        match stage {
            Stage::Descriptor => CreateStep::Attempt(Stage::Create),
            Stage::Create => CreateStep::Attempt(Stage::Mode),
            Stage::Mode => CreateStep::Attempt(Stage::Settings),
            Stage::Settings => CreateStep::Attempt(Stage::Apply),
            Stage::Apply => CreateStep::AskId,
        }
    }
}

/// A stage worked or did not.
pub fn advance(stage: Stage, success: bool) -> (r: CreateStep)
    ensures
        r == after_stage(stage, success),
{
    if success {
        match stage {
            Stage::Descriptor => CreateStep::Attempt(Stage::Create),
            Stage::Create => CreateStep::Attempt(Stage::Mode),
            Stage::Mode => CreateStep::Attempt(Stage::Settings),
            Stage::Settings => CreateStep::Attempt(Stage::Apply),
            Stage::Apply => CreateStep::AskId,
        }
    } else {
        match stage {
            Stage::Descriptor => CreateStep::Fail {
                error: DisplayError::DescriptorNil,
                release: false,
            },
            Stage::Create => CreateStep::Fail { error: DisplayError::CreateNull, release: false },
            Stage::Mode => CreateStep::Fail { error: DisplayError::ModeNil, release: true },
            Stage::Settings => CreateStep::Fail {
                error: DisplayError::SettingsNil,
                release: true,
            },
            Stage::Apply => CreateStep::Fail { error: DisplayError::ApplyRefused, release: true },
        }
    }
}

/// The step after the system said which display it has become.
pub open spec fn after_identified(display_id: u32) -> CreateStep {
    if display_id == 0 {
        CreateStep::Fail { error: DisplayError::NoDisplayId, release: true }
    } else {
        CreateStep::Done { display_id }
    }
}

/// The system said which display it has become; zero is none.
pub fn identified(display_id: u32) -> (r: CreateStep)
    ensures
        r == after_identified(display_id),
{
    if display_id == 0 {
        CreateStep::Fail { error: DisplayError::NoDisplayId, release: true }
    } else {
        CreateStep::Done { display_id }
    }
}

/// A change of the displays' arrangement. Changes take effect together, when they
/// are completed, and last until the user logs out.
#[derive(Debug, Clone, Copy, PartialEq, Eq, Structural)]
pub enum DisplayOp {
    Begin,
    Origin { display: u32, x: i32, y: i32 },
    Enable { display: u32, enabled: bool },
    Complete,
}

/// The main display and the one that is to be it.
#[derive(Debug, Clone, Copy, PartialEq, Eq)]
pub struct Arrangement {
    pub primary_id: u32,
    pub primary_origin: (i32, i32),
    pub virtual_id: u32,
    pub virtual_origin: (i32, i32),
    pub virtual_width: i32,
}

/// The display without a panel is the main one, for as long as this is held.
#[derive(Debug, Clone, Copy, PartialEq, Eq)]
pub struct PrimaryOverride {
    pub primary_id: u32,
    pub primary_old_origin: (i32, i32),
    pub virtual_id: u32,
    pub virtual_old_origin: (i32, i32),
}

/// The changes that make a display the main one.
pub open spec fn override_ops(a: Arrangement) -> Seq<DisplayOp> {
    seq![
        DisplayOp::Begin,
        DisplayOp::Origin { display: a.virtual_id, x: 0, y: 0 },
        DisplayOp::Origin { display: a.primary_id, x: a.virtual_width, y: 0 },
        DisplayOp::Complete,
    ]
}

/// The changes that put two displays where they were.
pub open spec fn restore_ops(
    primary_id: u32,
    primary_origin: (i32, i32),
    virtual_id: u32,
    virtual_origin: (i32, i32),
) -> Seq<DisplayOp> {
    seq![
        DisplayOp::Begin,
        DisplayOp::Origin { display: primary_id, x: primary_origin.0, y: primary_origin.1 },
        DisplayOp::Origin { display: virtual_id, x: virtual_origin.0, y: virtual_origin.1 },
        DisplayOp::Complete,
    ]
}

/// What is held to undo the changes that make a display the main one.
pub open spec fn overridden(a: Arrangement) -> PrimaryOverride {
    PrimaryOverride {
        primary_id: a.primary_id,
        primary_old_origin: a.primary_origin,
        virtual_id: a.virtual_id,
        virtual_old_origin: a.virtual_origin,
    }
}

/// What undoes the changes that made a display the main one.
pub open spec fn override_undone(held: PrimaryOverride) -> Seq<DisplayOp> {
    restore_ops(
        held.primary_id,
        held.primary_old_origin,
        held.virtual_id,
        held.virtual_old_origin,
    )
}

impl PrimaryOverride {
    /// Makes a display the main one. There is nothing to do, and nothing to undo,
    /// if it is that already.
    pub fn install(a: Arrangement) -> (r: Option<(Self, Vec<DisplayOp>)>)
        ensures
            a.primary_id == a.virtual_id ==> r is None,
            a.primary_id != a.virtual_id ==> {
                &&& r matches Some((held, ops))
                &&& ops@ == override_ops(a)
                &&& held == overridden(a)
            },
    {
        if a.primary_id == a.virtual_id {
            return None;
        }
        let mut ops: Vec<DisplayOp> = Vec::new();
        ops.push(DisplayOp::Begin);
        ops.push(DisplayOp::Origin { display: a.virtual_id, x: 0, y: 0 });
        ops.push(DisplayOp::Origin { display: a.primary_id, x: a.virtual_width, y: 0 });
        ops.push(DisplayOp::Complete);
        assert(ops@ =~= override_ops(a));
        let held = PrimaryOverride {
            primary_id: a.primary_id,
            primary_old_origin: a.primary_origin,
            virtual_id: a.virtual_id,
            virtual_old_origin: a.virtual_origin,
        };
        Some((held, ops))
    }

    /// What undoes it.
    pub fn restore(&self) -> (ops: Vec<DisplayOp>)
        ensures
            ops@ == override_undone(*self),
    {
        let mut ops: Vec<DisplayOp> = Vec::new();
        ops.push(DisplayOp::Begin);
        ops.push(
            DisplayOp::Origin {
                display: self.primary_id,
                x: self.primary_old_origin.0,
                y: self.primary_old_origin.1,
            },
        );
        ops.push(
            DisplayOp::Origin {
                display: self.virtual_id,
                x: self.virtual_old_origin.0,
                y: self.virtual_old_origin.1,
            },
        );
        ops.push(DisplayOp::Complete);
        assert(ops@ =~= restore_ops(
            self.primary_id,
            self.primary_old_origin,
            self.virtual_id,
            self.virtual_old_origin,
        ));
        ops
    }
}

/// The display without a panel is the main one and the old main one is off, for as
/// long as this is held.
#[derive(Debug, Clone, Copy, PartialEq, Eq)]
pub struct DetachedPrimary {
    pub primary_id: u32,
    pub primary_old_origin: (i32, i32),
    pub virtual_id: u32,
    pub virtual_old_origin: (i32, i32),
}

/// The changes that make a display the main one and switch the old one off.
pub open spec fn detach_ops(a: Arrangement) -> Seq<DisplayOp> {
    seq![
        DisplayOp::Begin,
        DisplayOp::Origin { display: a.virtual_id, x: 0, y: 0 },
        DisplayOp::Origin { display: a.primary_id, x: a.virtual_width, y: 0 },
        DisplayOp::Enable { display: a.primary_id, enabled: false },
        DisplayOp::Complete,
    ]
}

/// The changes that switch a display on again and put two displays where they
/// were.
pub open spec fn attach_ops(
    primary_id: u32,
    primary_origin: (i32, i32),
    virtual_id: u32,
    virtual_origin: (i32, i32),
) -> Seq<DisplayOp> {
    seq![
        DisplayOp::Begin,
        DisplayOp::Enable { display: primary_id, enabled: true },
        DisplayOp::Origin { display: primary_id, x: primary_origin.0, y: primary_origin.1 },
        DisplayOp::Origin { display: virtual_id, x: virtual_origin.0, y: virtual_origin.1 },
        DisplayOp::Complete,
    ]
}

/// What is held to undo the changes that switch the old main display off.
pub open spec fn detached(a: Arrangement) -> DetachedPrimary {
    DetachedPrimary {
        primary_id: a.primary_id,
        primary_old_origin: a.primary_origin,
        virtual_id: a.virtual_id,
        virtual_old_origin: a.virtual_origin,
    }
}

/// What undoes the changes that switched the old main display off.
pub open spec fn detach_undone(held: DetachedPrimary) -> Seq<DisplayOp> {
    attach_ops(
        held.primary_id,
        held.primary_old_origin,
        held.virtual_id,
        held.virtual_old_origin,
    )
}

impl DetachedPrimary {
    /// Makes a display the main one and switches the old one off. `enabler_found`
    /// says whether the system has the function for that.
    pub fn install(enabler_found: bool, a: Arrangement) -> (r: Result<
        (Self, Vec<DisplayOp>),
        DisplayError,
    >)
        ensures
            !enabler_found ==> (r matches Err(e) && e == DisplayError::EnablerMissing),
            enabler_found && a.primary_id == a.virtual_id ==> (r matches Err(e) && e
                == DisplayError::AlreadyPrimary),
            enabler_found && a.primary_id != a.virtual_id ==> {
                &&& r matches Ok((held, ops))
                &&& ops@ == detach_ops(a)
                &&& held == detached(a)
            },
    {
        if !enabler_found {
            return Err(DisplayError::EnablerMissing);
        }
        if a.primary_id == a.virtual_id {
            return Err(DisplayError::AlreadyPrimary);
        }
        let mut ops: Vec<DisplayOp> = Vec::new();
        ops.push(DisplayOp::Begin);
        ops.push(DisplayOp::Origin { display: a.virtual_id, x: 0, y: 0 });
        ops.push(DisplayOp::Origin { display: a.primary_id, x: a.virtual_width, y: 0 });
        ops.push(DisplayOp::Enable { display: a.primary_id, enabled: false });
        ops.push(DisplayOp::Complete);
        assert(ops@ =~= detach_ops(a));
        let held = DetachedPrimary {
            primary_id: a.primary_id,
            primary_old_origin: a.primary_origin,
            virtual_id: a.virtual_id,
            virtual_old_origin: a.virtual_origin,
        };
        Ok((held, ops))
    }

    /// What undoes it: the display is switched on first, so that the moves apply to
    /// it.
    pub fn restore(&self) -> (ops: Vec<DisplayOp>)
        ensures
            ops@ == detach_undone(*self),
    {
        let mut ops: Vec<DisplayOp> = Vec::new();
        ops.push(DisplayOp::Begin);
        ops.push(DisplayOp::Enable { display: self.primary_id, enabled: true });
        ops.push(
            DisplayOp::Origin {
                display: self.primary_id,
                x: self.primary_old_origin.0,
                y: self.primary_old_origin.1,
            },
        );
        ops.push(
            DisplayOp::Origin {
                display: self.virtual_id,
                x: self.virtual_old_origin.0,
                y: self.virtual_old_origin.1,
            },
        );
        ops.push(DisplayOp::Complete);
        assert(ops@ =~= attach_ops(
            self.primary_id,
            self.primary_old_origin,
            self.virtual_id,
            self.virtual_old_origin,
        ));
        ops
    }
}

/// Where the displays are, and which are on.
pub struct Layout {
    pub origins: Map<u32, (i32, i32)>,
    pub on: Set<u32>,
}

/// The arrangement after a change.
pub open spec fn changed(l: Layout, op: DisplayOp) -> Layout {
    match op {
        DisplayOp::Origin { display, x, y } => Layout {
            origins: l.origins.insert(display, (x, y)),
            on: l.on,
        },
        DisplayOp::Enable { display, enabled } => Layout {
            origins: l.origins,
            on: if enabled {
                l.on.insert(display)
            } else {
                l.on.remove(display)
            },
        },
        _ => l,
    }
}

/// The arrangement after some changes.
pub open spec fn arranged(l: Layout, ops: Seq<DisplayOp>) -> Layout
    decreases ops.len(),
{
    if ops.len() == 0 {
        l
    } else {
        changed(arranged(l, ops.drop_last()), ops.last())
    }
}

/// Whether two displays stand as an arrangement says, and are on.
pub open spec fn stands(l: Layout, a: Arrangement) -> bool {
    &&& a.primary_id != a.virtual_id
    &&& l.origins.contains_key(a.primary_id) && l.origins[a.primary_id] == a.primary_origin
    &&& l.origins.contains_key(a.virtual_id) && l.origins[a.virtual_id] == a.virtual_origin
    &&& l.on.contains(a.primary_id) && l.on.contains(a.virtual_id)
}

proof fn lemma_arranged_four(l: Layout, a: DisplayOp, b: DisplayOp, c: DisplayOp, d: DisplayOp)
    ensures
        arranged(l, seq![a, b, c, d]) == changed(changed(changed(changed(l, a), b), c), d),
{
    let s = seq![a, b, c, d];
    assert(s.drop_last() =~= seq![a, b, c]);
    assert(seq![a, b, c].drop_last() =~= seq![a, b]);
    assert(seq![a, b].drop_last() =~= seq![a]);
    assert(seq![a].drop_last() =~= Seq::<DisplayOp>::empty());
    reveal_with_fuel(arranged, 5);
}

proof fn lemma_arranged_five(
    l: Layout,
    a: DisplayOp,
    b: DisplayOp,
    c: DisplayOp,
    d: DisplayOp,
    e: DisplayOp,
)
    ensures
        arranged(l, seq![a, b, c, d, e]) == changed(
            changed(changed(changed(changed(l, a), b), c), d),
            e,
        ),
{
    lemma_arranged_four(l, a, b, c, d);
    assert(seq![a, b, c, d, e].drop_last() =~= seq![a, b, c, d]);
}

/// While it is held, the display without a panel is at the origin and the old main
/// display right beside it; afterwards everything is where it was.
pub proof fn law_override_is_undone(l: Layout, a: Arrangement)
    requires
        stands(l, a),
    ensures
        ({
            let during = arranged(l, override_ops(a));
            let after = arranged(
                during,
                restore_ops(a.primary_id, a.primary_origin, a.virtual_id, a.virtual_origin),
            );
            &&& during.origins[a.virtual_id] == (0i32, 0i32)
            &&& during.origins[a.primary_id] == (a.virtual_width, 0i32)
            &&& during.on == l.on
            &&& after == l
        }),
{
    let o = override_ops(a);
    lemma_arranged_four(l, o[0], o[1], o[2], o[3]);
    assert(o =~= seq![o[0], o[1], o[2], o[3]]);
    let during = arranged(l, o);
    let r = restore_ops(a.primary_id, a.primary_origin, a.virtual_id, a.virtual_origin);
    lemma_arranged_four(during, r[0], r[1], r[2], r[3]);
    assert(r =~= seq![r[0], r[1], r[2], r[3]]);
    let after = arranged(during, r);
    assert(after.origins =~= l.origins);
}

/// While it is held, the display without a panel is at the origin, and the old main
/// display beside it and off as well; afterwards everything is where it was, and on.
pub proof fn law_detach_is_undone(l: Layout, a: Arrangement)
    requires
        stands(l, a),
    ensures
        ({
            let during = arranged(l, detach_ops(a));
            let after = arranged(
                during,
                attach_ops(a.primary_id, a.primary_origin, a.virtual_id, a.virtual_origin),
            );
            &&& during.origins[a.virtual_id] == (0i32, 0i32)
            &&& during.origins[a.primary_id] == (a.virtual_width, 0i32)
            &&& during.on.contains(a.virtual_id)
            &&& !during.on.contains(a.primary_id)
            &&& after == l
        }),
{
    let o = detach_ops(a);
    lemma_arranged_five(l, o[0], o[1], o[2], o[3], o[4]);
    assert(o =~= seq![o[0], o[1], o[2], o[3], o[4]]);
    let during = arranged(l, o);
    let r = attach_ops(a.primary_id, a.primary_origin, a.virtual_id, a.virtual_origin);
    lemma_arranged_five(during, r[0], r[1], r[2], r[3], r[4]);
    assert(r =~= seq![r[0], r[1], r[2], r[3], r[4]]);
    let after = arranged(during, r);
    assert(after.origins =~= l.origins);
    assert(after.on =~= l.on);
}

/// Whatever goes wrong in the making of a display, what was created is released,
/// and nothing else is.
pub proof fn law_failure_releases_what_was_created(stage: Stage)
    ensures
        after_stage(stage, false) matches CreateStep::Fail { release, .. } && release
            == created_before(stage),
        created_before(stage) <==> stage != Stage::Descriptor && stage != Stage::Create,
{
}

/// What is held is enough to put every display back where it was, and on, whichever
/// way the main display was changed.
pub proof fn law_what_is_held_undoes_the_change(l: Layout, a: Arrangement)
    requires
        stands(l, a),
    ensures
        arranged(arranged(l, override_ops(a)), override_undone(overridden(a))) == l,
        arranged(arranged(l, detach_ops(a)), detach_undone(detached(a))) == l,
{
    law_override_is_undone(l, a);
    law_detach_is_undone(l, a);
}

/// Changes are made together: each series begins once, is completed once, and has all
/// its changes in between. A display that was switched off is switched on before it
/// is moved.
pub proof fn law_changes_take_effect_together(a: Arrangement, held: DetachedPrimary)
    ensures
        override_ops(a).first() is Begin && override_ops(a).last() is Complete,
        detach_ops(a).first() is Begin && detach_ops(a).last() is Complete,
        detach_undone(held).first() is Begin && detach_undone(held).last() is Complete,
        override_undone(overridden(a)).first() is Begin && override_undone(overridden(a)).last()
            is Complete,
        detach_undone(held)[1] == (DisplayOp::Enable { display: held.primary_id, enabled: true }),
{
}

/// A display is made in five steps, each only after the one before it, and is then
/// asked for its number; zero is no number. Each failure has its own name.
pub proof fn law_how_a_display_is_made(display_id: u32)
    ensures
        after_stage(Stage::Descriptor, true) == CreateStep::Attempt(Stage::Create),
        after_stage(Stage::Create, true) == CreateStep::Attempt(Stage::Mode),
        after_stage(Stage::Mode, true) == CreateStep::Attempt(Stage::Settings),
        after_stage(Stage::Settings, true) == CreateStep::Attempt(Stage::Apply),
        after_stage(Stage::Apply, true) == CreateStep::AskId,
        stage_error(Stage::Descriptor) == DisplayError::DescriptorNil,
        stage_error(Stage::Create) == DisplayError::CreateNull,
        stage_error(Stage::Mode) == DisplayError::ModeNil,
        stage_error(Stage::Settings) == DisplayError::SettingsNil,
        stage_error(Stage::Apply) == DisplayError::ApplyRefused,
        forall|stage: Stage| #[trigger]
            after_stage(stage, false) matches CreateStep::Fail { error, .. } && error
                == stage_error(stage),
        display_id != 0 ==> after_identified(display_id) == (CreateStep::Done { display_id }),
        after_identified(0) == (CreateStep::Fail {
            error: DisplayError::NoDisplayId,
            release: true,
        }),
{
}

/// Of several things that are missing the first is told, and one is told exactly
/// where something is missing.
pub proof fn law_the_first_missing_is_told(found: Seq<bool>, i: int, j: int)
    requires
        first_missing(found, i),
    ensures
        0 <= i < found.len(),
        !found[i],
        0 <= j < found.len() && !found[j] ==> i <= j,
        first_missing(found, j) ==> i == j,
{
}

} // verus!
