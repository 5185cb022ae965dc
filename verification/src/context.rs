use vstd::prelude::*;

verus! {

/// The names of a list of strings, by their characters.
pub open spec fn names(list: Seq<String>) -> Seq<Seq<char>> {
    list.map_values(|name: String| name@)
}

/// What every view is handed on a pass: the sounds that were loaded, and the
/// queue of sounds that views asked to be played.
#[derive(Debug)]
pub struct Context {
    sounds: Vec<String>,
    pending: Vec<String>,
}

impl Context {
    /// The names of the sounds that were loaded.
    pub closed spec fn loaded(&self) -> Seq<Seq<char>> {
        names(self.sounds@)
    }

    /// The names of the sounds that wait to be played, oldest first.
    pub closed spec fn queued(&self) -> Seq<Seq<char>> {
        names(self.pending@)
    }

    /// A context that knows the sounds named in `sounds`, with nothing
    /// waiting to be played.
    pub fn new(sounds: Vec<String>) -> (context: Context)
        ensures
            context.loaded() == names(sounds@),
            context.queued() == Seq::<Seq<char>>::empty(),
    {
        let context = Context { sounds, pending: Vec::new() };
        assert(names(context.pending@) == Seq::<Seq<char>>::empty());
        context
    }

    /// Whether a sound named `name` was loaded.
    pub fn has_sound(&self, name: &str) -> (known: bool)
        ensures
            known == self.loaded().contains(name@),
    {
        let wanted = name.to_owned();
        let mut i: usize = 0;
        while i < self.sounds.len()
            invariant
                i <= self.sounds@.len(),
                wanted@ == name@,
                forall|j: int| 0 <= j < i ==> self.loaded()[j] != name@,
            decreases self.sounds@.len() - i,
        {
            if self.sounds[i] == wanted {
                assert(self.loaded()[i as int] == name@);
                return true;
            }
            i += 1;
        }
        false
    }

    /// Asks for the sound named `name` to be played: it joins the end of the
    /// queue. The sound must have been loaded.
    pub fn play_sound(&mut self, name: &str)
        requires
            old(self).loaded().contains(name@),
        ensures
            final(self).loaded() == old(self).loaded(),
            final(self).queued() == old(self).queued().push(name@),
    {
        self.pending.push(name.to_owned());
        assert(names(self.pending@) == names(old(self).pending@).push(name@));
    }

    /// Hands out the sounds that wait to be played, oldest first, and leaves
    /// the queue empty.
    pub fn take_queued(&mut self) -> (sounds: Vec<String>)
        ensures
            names(sounds@) == old(self).queued(),
            final(self).loaded() == old(self).loaded(),
            final(self).queued() == Seq::<Seq<char>>::empty(),
    {
        let mut sounds: Vec<String> = Vec::new();
        std::mem::swap(&mut sounds, &mut self.pending);
        assert(names(self.pending@) == Seq::<Seq<char>>::empty());
        sounds
    }
}

} // verus!
