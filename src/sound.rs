use vstd::prelude::*;

verus! {

/// A feedback effect that the game asks its sound collaborator to play.
#[derive(Copy, Clone, Hash, Eq, PartialEq, Debug, Structural)]
pub enum Sound {
    Action(Action),
    Meta(Meta),
    Clear(Clear),
}

/// Effects about the round itself.
#[derive(Copy, Clone, Hash, Eq, PartialEq, Debug, Structural)]
pub enum Meta {
    Ready,
    Go,
    Lose,
    Win,
    Fault,
    Garbage,
}

/// Effects of moving the current piece.
#[derive(Copy, Clone, Hash, Eq, PartialEq, Debug, Structural)]
pub enum Action {
    Move,
    Rotate,
    Spin,
    MiniSpin,
    Land,
    HardDrop,
    SoftDrop,
    Gravity,
    Lock,
    Hold,
    NoHold,
}

/// Effects of a line clear.
#[derive(Copy, Clone, Hash, Eq, PartialEq, Debug, Structural)]
pub enum Clear {
    Single,
    Double,
    Triple,
    Quad,
    Tspin,
    TspinDouble,
    TSpinTriple,
}

/// A sink that plays nothing.
#[derive(Default, Clone, Copy, Debug)]
pub struct NullSink;

impl From<Meta> for Sound {
    fn from(value: Meta) -> (r: Self) {
        Self::Meta(value)
    }
}

impl vstd::std_specs::convert::FromSpecImpl<Meta> for Sound {
    open spec fn obeys_from_spec() -> bool {
        true
    }

    open spec fn from_spec(v: Meta) -> Self {
        Sound::Meta(v)
    }
}

impl From<Action> for Sound {
    fn from(value: Action) -> (r: Self) {
        Self::Action(value)
    }
}

impl vstd::std_specs::convert::FromSpecImpl<Action> for Sound {
    open spec fn obeys_from_spec() -> bool {
        true
    }

    open spec fn from_spec(v: Action) -> Self {
        Sound::Action(v)
    }
}

impl From<Clear> for Sound {
    fn from(value: Clear) -> (r: Self) {
        Self::Clear(value)
    }
}

impl vstd::std_specs::convert::FromSpecImpl<Clear> for Sound {
    open spec fn obeys_from_spec() -> bool {
        true
    }

    open spec fn from_spec(v: Clear) -> Self {
        Sound::Clear(v)
    }
}

/// The effects to try, in order, when an action effect has no sample of its own.
pub open spec fn action_fallback(a: Action) -> Seq<Action> {
    match a {
        Action::Spin => seq![Action::Rotate],
        Action::MiniSpin => seq![Action::Spin, Action::Rotate],
        Action::HardDrop => seq![Action::Lock],
        Action::SoftDrop => seq![Action::Gravity],
        Action::Gravity => seq![Action::SoftDrop],
        Action::Lock => seq![Action::HardDrop],
        _ => Seq::empty(),
    }
}

/// The effects to try, in order, when a clear effect has no sample of its own.
pub open spec fn clear_fallback(c: Clear) -> Seq<Clear> {
    match c {
        Clear::Single => Seq::empty(),
        Clear::Double => seq![Clear::Single],
        Clear::Triple => seq![Clear::Double, Clear::Single],
        Clear::Quad => seq![Clear::Triple, Clear::Double, Clear::Single],
        Clear::Tspin => seq![Clear::Single],
        Clear::TspinDouble => seq![Clear::Tspin, Clear::Single],
        Clear::TSpinTriple => seq![Clear::TspinDouble, Clear::Tspin, Clear::Single],
    }
}

/// The effects to try, in order, when `s` has no sample of its own.
pub open spec fn sound_fallback(s: Sound) -> Seq<Sound> {
    match s {
        Sound::Action(a) => action_fallback(a).map_values(|x: Action| Sound::Action(x)),
        Sound::Meta(_) => Seq::empty(),
        Sound::Clear(c) => clear_fallback(c).map_values(|x: Clear| Sound::Clear(x)),
    }
}

impl Action {
    pub fn fallback(self) -> (r: Vec<Action>)
        ensures
            r@ == action_fallback(self),
    {
        let r = match self {
            Action::Spin => vec![Action::Rotate],
            Action::MiniSpin => vec![Action::Spin, Action::Rotate],
            Action::HardDrop => vec![Action::Lock],
            Action::SoftDrop => vec![Action::Gravity],
            Action::Gravity => vec![Action::SoftDrop],
            Action::Lock => vec![Action::HardDrop],
            _ => Vec::new(),
        };
        assert(r@ =~= action_fallback(self));
        r
    }
}

impl Clear {
    pub fn fallback(self) -> (r: Vec<Clear>)
        ensures
            r@ == clear_fallback(self),
    {
        let r = match self {
            Clear::Single => Vec::new(),
            Clear::Double => vec![Clear::Single],
            Clear::Triple => vec![Clear::Double, Clear::Single],
            Clear::Quad => vec![Clear::Triple, Clear::Double, Clear::Single],
            Clear::Tspin => vec![Clear::Single],
            Clear::TspinDouble => vec![Clear::Tspin, Clear::Single],
            Clear::TSpinTriple => vec![Clear::TspinDouble, Clear::Tspin, Clear::Single],
        };
        assert(r@ =~= clear_fallback(self));
        r
    }
}

impl Meta {
    pub fn fallback(self) -> (r: Vec<Meta>)
        ensures
            r@ == Seq::<Meta>::empty(),
    {
        Vec::new()
    }
}

impl Sound {
    /// The effects to try, in order, when this one has no sample of its own.
    pub fn fallback(self) -> (r: Vec<Sound>)
        ensures
            r@ == sound_fallback(self),
    {
        let mut r: Vec<Sound> = Vec::new();
        match self {
            Sound::Action(a) => {
                let f = a.fallback();
                let mut i: usize = 0;
                while i < f.len()
                    invariant
                        0 <= i <= f@.len(),
                        f@ == action_fallback(a),
                        r@ == f@.take(i as int).map_values(|x: Action| Sound::Action(x)),
                    decreases f@.len() - i,
                {
                    r.push(Sound::Action(f[i]));
                    assert(f@.take(i as int + 1) =~= f@.take(i as int).push(f@[i as int]));
                    assert(r@ =~= f@.take(i as int + 1).map_values(|x: Action| Sound::Action(x)));
                    i = i + 1;
                }
                assert(f@.take(f@.len() as int) =~= f@);
            },
            Sound::Meta(_) => {
                assert(r@ =~= sound_fallback(self));
            },
            Sound::Clear(c) => {
                let f = c.fallback();
                let mut i: usize = 0;
                while i < f.len()
                    invariant
                        0 <= i <= f@.len(),
                        f@ == clear_fallback(c),
                        r@ == f@.take(i as int).map_values(|x: Clear| Sound::Clear(x)),
                    decreases f@.len() - i,
                {
                    r.push(Sound::Clear(f[i]));
                    assert(f@.take(i as int + 1) =~= f@.take(i as int).push(f@[i as int]));
                    assert(r@ =~= f@.take(i as int + 1).map_values(|x: Clear| Sound::Clear(x)));
                    i = i + 1;
                }
                assert(f@.take(f@.len() as int) =~= f@);
            },
        }
        r
    }

    /// The effects to try for this one, in order: itself, then its fallbacks.
    pub fn candidates(self) -> (r: Vec<Sound>)
        ensures
            r@ == seq![self] + sound_fallback(self),
    {
        let mut r = vec![self];
        let mut f = self.fallback();
        r.append(&mut f);
        r
    }
}

/// The first of `cands` that `loaded` holds, if any.
pub open spec fn first_loaded_in(cands: Seq<Sound>, loaded: Seq<Sound>) -> Option<Sound>
    decreases cands.len(),
{
    if cands.len() == 0 {
        None
    } else if loaded.contains(cands[0]) {
        Some(cands[0])
    } else {
        first_loaded_in(cands.drop_first(), loaded)
    }
}

impl Sound {
    /// The effect whose sample plays for this one: the first of itself and its
    /// fallbacks that has a loaded sample; `None` when none has.
    pub fn first_loaded(self, loaded: &Vec<Sound>) -> (r: Option<Sound>)
        ensures
            r == first_loaded_in(seq![self] + sound_fallback(self), loaded@),
    {
        let cands = self.candidates();
        assert(cands@.skip(0) =~= cands@);
        let mut i: usize = 0;
        while i < cands.len()
            invariant
                0 <= i <= cands@.len(),
                cands@ == seq![self] + sound_fallback(self),
                first_loaded_in(cands@, loaded@) == first_loaded_in(cands@.skip(i as int), loaded@),
            decreases cands@.len() - i,
        {
            let c = cands[i];
            let mut found = false;
            let mut j: usize = 0;
            while j < loaded.len()
                invariant
                    0 <= j <= loaded@.len(),
                    found == (exists|k: int| 0 <= k < j && loaded@[k] == c),
                decreases loaded@.len() - j,
            {
                if loaded[j] == c {
                    found = true;
                }
                j = j + 1;
            }
            assert(cands@.skip(i as int)[0] == c);
            assert(cands@.skip(i as int).drop_first() =~= cands@.skip(i as int + 1));
            if found {
                assert(loaded@.contains(c));
                return Some(c);
            }
            i = i + 1;
        }
        assert(cands@.skip(i as int).len() == 0);
        None
    }
}

/// The effect of a lock that cleared `lines` rows: a plain lock for none, otherwise
/// the clear of that size, in its spin variant when `spin` is set and fewer than
/// four rows went. Four or more rows count as a quad.
pub open spec fn lock_sound(lines: nat, spin: bool) -> Sound {
    if lines == 0 {
        Sound::Action(Action::Lock)
    } else if lines == 1 {
        if spin { Sound::Clear(Clear::Tspin) } else { Sound::Clear(Clear::Single) }
    } else if lines == 2 {
        if spin { Sound::Clear(Clear::TspinDouble) } else { Sound::Clear(Clear::Double) }
    } else if lines == 3 {
        if spin { Sound::Clear(Clear::TSpinTriple) } else { Sound::Clear(Clear::Triple) }
    } else {
        Sound::Clear(Clear::Quad)
    }
}

/// Classifies a lock by the number of rows it cleared and the spin flag.
pub fn clear_sound(lines: usize, spin: bool) -> (r: Sound)
    ensures
        r == lock_sound(lines as nat, spin),
{
    match (lines, spin) {
        (0, _) => Action::Lock.into(),
        (1, false) => Clear::Single.into(),
        (1, true) => Clear::Tspin.into(),
        (2, false) => Clear::Double.into(),
        (2, true) => Clear::TspinDouble.into(),
        (3, false) => Clear::Triple.into(),
        (3, true) => Clear::TSpinTriple.into(),
        _ => Clear::Quad.into(),
    }
}

} // verus!
