use vstd::prelude::*;

verus! {

/// An abstract move intent, decoupled from physical key identities.
#[derive(Clone, Copy, PartialEq, Eq, Structural, Debug)]
pub enum PlayerOperate {
    MoveFrond,
    MoveBack,
    MoveRight,
    MoveLeft,
}

/// Configurable mapping from physical input identifiers to move intents.
/// Later entries for the same key shadow earlier ones.
pub struct PlayerInputSettings {
    input_map: Vec<(u32, PlayerOperate)>,
}

/// The move intent a key maps to: the last entry for that key wins.
pub open spec fn spec_lookup(entries: Seq<(u32, PlayerOperate)>, key: u32) -> Option<PlayerOperate>
    decreases entries.len(),
{
    if entries.len() == 0 {
        None
    } else if entries.last().0 == key {
        Some(entries.last().1)
    } else {
        spec_lookup(entries.drop_last(), key)
    }
}

impl PlayerInputSettings {
    pub closed spec fn entries(self) -> Seq<(u32, PlayerOperate)> {
        self.input_map@
    }

    pub fn from_array(arr: &Vec<(u32, PlayerOperate)>) -> (r: Self)
        ensures
            r.entries() == arr@,
    {
        let mut input_map: Vec<(u32, PlayerOperate)> = Vec::new();
        let mut i: usize = 0;
        while i < arr.len()
            invariant
                i <= arr.len(),
                input_map@ == arr@.take(i as int),
            decreases arr.len() - i,
        {
            input_map.push(arr[i]);
            proof {
                assert(arr@.take(i + 1 as int).drop_last() =~= arr@.take(i as int));
                assert(input_map@ =~= arr@.take(i + 1 as int));
            }
            i = i + 1;
        }
        proof {
            assert(arr@.take(arr@.len() as int) =~= arr@);
        }
        PlayerInputSettings { input_map }
    }

    /// The move intent the given key maps to, if any.
    pub fn lookup(&self, key: u32) -> (r: Option<PlayerOperate>)
        ensures
            r == spec_lookup(self.entries(), key),
    {
        let mut i: usize = self.input_map.len();
        proof {
            assert(self.entries().take(i as int) =~= self.entries());
        }
        while i > 0
            invariant
                i <= self.input_map.len(),
                spec_lookup(self.entries(), key) == spec_lookup(self.entries().take(i as int), key),
            decreases i,
        {
            i = i - 1;
            if self.input_map[i].0 == key {
                proof {
                    assert(self.entries().take(i + 1 as int).last() == self.entries()[i as int]);
                }
                return Some(self.input_map[i].1);
            }
            proof {
                assert(self.entries().take(i + 1 as int).drop_last() =~= self.entries().take(
                    i as int,
                ));
            }
        }
        None
    }
}

/// The set of move intents currently held, updated from "just pressed" /
/// "just released" transitions so a hold is never double-processed.
#[derive(Clone, Copy, PartialEq, Eq, Structural, Debug)]
pub struct OperateInput {
    pub frond: bool,
    pub back: bool,
    pub right: bool,
    pub left: bool,
}

pub open spec fn spec_press(st: OperateInput, op: PlayerOperate) -> OperateInput {
    match op {
        PlayerOperate::MoveFrond => OperateInput { frond: true, ..st },
        PlayerOperate::MoveBack => OperateInput { back: true, ..st },
        PlayerOperate::MoveRight => OperateInput { right: true, ..st },
        PlayerOperate::MoveLeft => OperateInput { left: true, ..st },
    }
}

pub open spec fn spec_release(st: OperateInput, op: PlayerOperate) -> OperateInput {
    match op {
        PlayerOperate::MoveFrond => OperateInput { frond: false, ..st },
        PlayerOperate::MoveBack => OperateInput { back: false, ..st },
        PlayerOperate::MoveRight => OperateInput { right: false, ..st },
        PlayerOperate::MoveLeft => OperateInput { left: false, ..st },
    }
}

/// State after pressing, in order, the intent of each mapped key.
pub open spec fn spec_apply_presses(
    st: OperateInput,
    entries: Seq<(u32, PlayerOperate)>,
    keys: Seq<u32>,
) -> OperateInput
    decreases keys.len(),
{
    if keys.len() == 0 {
        st
    } else {
        let prev = spec_apply_presses(st, entries, keys.drop_last());
        match spec_lookup(entries, keys.last()) {
            Some(op) => spec_press(prev, op),
            None => prev,
        }
    }
}

/// State after releasing, in order, the intent of each mapped key.
pub open spec fn spec_apply_releases(
    st: OperateInput,
    entries: Seq<(u32, PlayerOperate)>,
    keys: Seq<u32>,
) -> OperateInput
    decreases keys.len(),
{
    if keys.len() == 0 {
        st
    } else {
        let prev = spec_apply_releases(st, entries, keys.drop_last());
        match spec_lookup(entries, keys.last()) {
            Some(op) => spec_release(prev, op),
            None => prev,
        }
    }
}

/// State after one input-mapper step: all presses land first, then releases.
pub open spec fn spec_after_keys(
    st: OperateInput,
    entries: Seq<(u32, PlayerOperate)>,
    just_pressed: Seq<u32>,
    just_released: Seq<u32>,
) -> OperateInput {
    spec_apply_releases(spec_apply_presses(st, entries, just_pressed), entries, just_released)
}

impl OperateInput {
    pub fn new() -> (r: Self)
        ensures
            r == (OperateInput { frond: false, back: false, right: false, left: false }),
    {
        OperateInput { frond: false, back: false, right: false, left: false }
    }

    pub open spec fn spec_pressed(self, op: PlayerOperate) -> bool {
        match op {
            PlayerOperate::MoveFrond => self.frond,
            PlayerOperate::MoveBack => self.back,
            PlayerOperate::MoveRight => self.right,
            PlayerOperate::MoveLeft => self.left,
        }
    }

    pub fn pressed(&self, op: PlayerOperate) -> (r: bool)
        ensures
            r == self.spec_pressed(op),
    {
        match op {
            PlayerOperate::MoveFrond => self.frond,
            PlayerOperate::MoveBack => self.back,
            PlayerOperate::MoveRight => self.right,
            PlayerOperate::MoveLeft => self.left,
        }
    }

    pub fn press(&mut self, op: PlayerOperate)
        ensures
            *final(self) == spec_press(*old(self), op),
    {
        match op {
            PlayerOperate::MoveFrond => self.frond = true,
            PlayerOperate::MoveBack => self.back = true,
            PlayerOperate::MoveRight => self.right = true,
            PlayerOperate::MoveLeft => self.left = true,
        }
    }

    pub fn release(&mut self, op: PlayerOperate)
        ensures
            *final(self) == spec_release(*old(self), op),
    {
        match op {
            PlayerOperate::MoveFrond => self.frond = false,
            PlayerOperate::MoveBack => self.back = false,
            PlayerOperate::MoveRight => self.right = false,
            PlayerOperate::MoveLeft => self.left = false,
        }
    }

    /// One input-mapper step: fold the tick's key transitions into the held
    /// intent set through the configured mapping.
    pub fn update_from_keys(
        &mut self,
        settings: &PlayerInputSettings,
        just_pressed: &Vec<u32>,
        just_released: &Vec<u32>,
    )
        ensures
            *final(self) == spec_after_keys(
                *old(self),
                settings.entries(),
                just_pressed@,
                just_released@,
            ),
    {
        let mut i: usize = 0;
        while i < just_pressed.len()
            invariant
                i <= just_pressed.len(),
                *self == spec_apply_presses(
                    *old(self),
                    settings.entries(),
                    just_pressed@.take(i as int),
                ),
            decreases just_pressed.len() - i,
        {
            proof {
                assert(just_pressed@.take(i + 1 as int).drop_last() =~= just_pressed@.take(i as int));
            }
            match settings.lookup(just_pressed[i]) {
                Some(op) => self.press(op),
                None => (),
            }
            i = i + 1;
        }
        proof {
            assert(just_pressed@.take(just_pressed@.len() as int) =~= just_pressed@);
        }
        let ghost mid: OperateInput = *self;
        let mut j: usize = 0;
        while j < just_released.len()
            invariant
                j <= just_released.len(),
                *self == spec_apply_releases(mid, settings.entries(), just_released@.take(j as int)),
            decreases just_released.len() - j,
        {
            proof {
                assert(just_released@.take(j + 1 as int).drop_last() =~= just_released@.take(
                    j as int,
                ));
            }
            match settings.lookup(just_released[j]) {
                Some(op) => self.release(op),
                None => (),
            }
            j = j + 1;
        }
        proof {
            assert(just_released@.take(just_released@.len() as int) =~= just_released@);
        }
    }
}

/// Horizontal move direction held by the intent set: right minus left.
pub open spec fn dir_x(st: OperateInput) -> int {
    (if st.right { 1int } else { 0 }) - (if st.left { 1int } else { 0 })
}

/// Vertical move direction held by the intent set: forward minus back.
pub open spec fn dir_y(st: OperateInput) -> int {
    (if st.frond { 1int } else { 0 }) - (if st.back { 1int } else { 0 })
}

pub fn dir_x_of(st: &OperateInput) -> (r: i64)
    ensures
        r == dir_x(*st),
{
    (if st.right { 1i64 } else { 0i64 }) - (if st.left { 1i64 } else { 0i64 })
}

pub fn dir_y_of(st: &OperateInput) -> (r: i64)
    ensures
        r == dir_y(*st),
{
    (if st.frond { 1i64 } else { 0i64 }) - (if st.back { 1i64 } else { 0i64 })
}

} // verus!
