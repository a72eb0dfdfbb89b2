use std::collections::HashMap;

use macrdp::virtual_display::{
    advance, class_names, create, identified, load, symbol_names, Arrangement, CreateStep,
    DetachedPrimary, DisplayError, DisplayOp, PrimaryOverride, Stage,
};

#[test]
fn missing_interfaces_are_named() {
    assert_eq!(symbol_names()[3], "CFRelease");
    assert_eq!(class_names()[0], "CGVirtualDisplayDescriptor");
    assert_eq!(load(&vec![true; 4]), Ok(()));
    assert_eq!(
        load(&vec![true, false, false, true]),
        Err(DisplayError::SymbolMissing { index: 1 })
    );
    assert_eq!(create(&vec![true; 4]), CreateStep::Attempt(Stage::Descriptor));
    assert_eq!(
        create(&vec![true, true, false, true]),
        CreateStep::Fail { error: DisplayError::ClassMissing { index: 2 }, release: false }
    );
}

#[test]
fn a_display_is_made_step_by_step() {
    let mut step = create(&vec![true; 4]);
    let mut stages = Vec::new();
    while let CreateStep::Attempt(stage) = step {
        stages.push(stage);
        step = advance(stage, true);
    }
    assert_eq!(
        stages,
        vec![Stage::Descriptor, Stage::Create, Stage::Mode, Stage::Settings, Stage::Apply]
    );
    assert_eq!(step, CreateStep::AskId);
    assert_eq!(identified(7), CreateStep::Done { display_id: 7 });
    assert_eq!(
        identified(0),
        CreateStep::Fail { error: DisplayError::NoDisplayId, release: true }
    );
    let fail = |error, release| CreateStep::Fail { error, release };
    assert_eq!(advance(Stage::Descriptor, false), fail(DisplayError::DescriptorNil, false));
    assert_eq!(advance(Stage::Create, false), fail(DisplayError::CreateNull, false));
    assert_eq!(advance(Stage::Mode, false), fail(DisplayError::ModeNil, true));
    assert_eq!(advance(Stage::Settings, false), fail(DisplayError::SettingsNil, true));
    assert_eq!(advance(Stage::Apply, false), fail(DisplayError::ApplyRefused, true));
}

const HOME: Arrangement = Arrangement {
    primary_id: 1,
    primary_origin: (0, 0),
    virtual_id: 2,
    virtual_origin: (1440, -20),
    virtual_width: 1920,
};

type Layout = HashMap<u32, (i32, i32, bool)>;

fn layout() -> Layout {
    HashMap::from([(1, (0, 0, true)), (2, (1440, -20, true)), (3, (5, 5, true))])
}

fn apply(l: &mut Layout, ops: Vec<DisplayOp>) {
    assert_eq!(ops.first(), Some(&DisplayOp::Begin));
    assert_eq!(ops.last(), Some(&DisplayOp::Complete));
    for op in ops {
        match op {
            DisplayOp::Origin { display, x, y } => {
                let d = l.get_mut(&display).expect("display");
                (d.0, d.1) = (x, y);
            }
            DisplayOp::Enable { display, enabled } => {
                l.get_mut(&display).expect("display").2 = enabled;
            }
            _ => {}
        }
    }
}

#[test]
fn an_override_is_undone() {
    let (held, ops) = PrimaryOverride::install(HOME).expect("not primary yet");
    let mut l = layout();
    apply(&mut l, ops);
    assert_eq!((l[&2], l[&1], l[&3]), ((0, 0, true), (1920, 0, true), (5, 5, true)));
    apply(&mut l, held.restore());
    assert_eq!(l, layout());
    assert!(PrimaryOverride::install(Arrangement { virtual_id: 1, ..HOME }).is_none());
}

#[test]
fn a_detached_display_comes_back() {
    let (held, ops) = DetachedPrimary::install(true, HOME).expect("detached");
    let mut l = layout();
    apply(&mut l, ops);
    assert_eq!((l[&2], l[&1]), ((0, 0, true), (1920, 0, false)));
    let back = held.restore();
    assert_eq!(back[1], DisplayOp::Enable { display: 1, enabled: true });
    apply(&mut l, back);
    assert_eq!(l, layout());
    assert_eq!(
        DetachedPrimary::install(true, Arrangement { virtual_id: 1, ..HOME }).err(),
        Some(DisplayError::AlreadyPrimary)
    );
    assert_eq!(DetachedPrimary::install(false, HOME).err(), Some(DisplayError::EnablerMissing));
}
