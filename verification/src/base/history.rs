use vstd::prelude::*;

verus! {

/// A command that can be undone and redone. Implementations decide for
/// themselves whether each step succeeds and what the command becomes, and say
/// so through the spec functions below: each step returns what its spec
/// function gives for the command's present state, and leaves the command as
/// the matching post-state function describes.
pub trait HistoryCommand: Sized {
    /// What `execute` reports in the command's present state.
    spec fn execute_result(&self) -> bool;

    /// The command as `execute` leaves it.
    spec fn executed(&self) -> Self;

    /// What `undo` reports in the command's present state.
    spec fn undo_result(&self) -> bool;

    /// The command as `undo` leaves it.
    spec fn undone(&self) -> Self;

    /// What `redo` reports in the command's present state: by default what
    /// `execute` would, as for a command that redoes by executing again.
    open spec fn redo_result(&self) -> bool {
        self.execute_result()
    }

    /// The command as `redo` leaves it: by default as `execute` would.
    open spec fn redone(&self) -> Self {
        self.executed()
    }

    /// The command's name, as `get_name` gives it.
    spec fn name(&self) -> String;

    /// Performs the command; `true` on success.
    fn execute(&mut self) -> (r: bool)
        ensures
            r == old(self).execute_result(),
            *final(self) == old(self).executed(),
    ;

    /// Reverts the command; `true` on success.
    fn undo(&mut self) -> (r: bool)
        ensures
            r == old(self).undo_result(),
            *final(self) == old(self).undone(),
    ;

    /// Performs the command again; `true` on success. Most commands redo by
    /// executing again: `fn redo(&mut self) -> bool { self.execute() }`, which
    /// matches the default `redo_result` and `redone`.
    fn redo(&mut self) -> (r: bool)
        ensures
            r == old(self).redo_result(),
            *final(self) == old(self).redone(),
    ;

    /// A human-readable name for the command.
    fn get_name(&self) -> (r: String)
        ensures
            r@ == self.name()@,
    ;
}

/// A single state in the history stack: a command and the document it belongs to.
pub struct HistoryState<C> {
    command: C,
    document_id: String,
}

impl<C: HistoryCommand> HistoryState<C> {
    /// The id of the document the command belongs to.
    pub closed spec fn doc_id(&self) -> Seq<char> {
        self.document_id@
    }

    /// The command the state holds.
    pub closed spec fn command(&self) -> C {
        self.command
    }

    /// The state holding `command` for the document `document_id`.
    pub closed spec fn holding(command: C, document_id: String) -> Self {
        HistoryState { command, document_id }
    }

    /// This state with its command replaced by `command`, for the same document.
    pub closed spec fn with_command(&self, command: C) -> Self {
        HistoryState { command, document_id: self.document_id }
    }

    /// This state as `undo` leaves it: its command undone.
    pub open spec fn undone(&self) -> Self {
        self.with_command(self.command().undone())
    }

    /// This state as `redo` leaves it: its command redone.
    pub open spec fn redone(&self) -> Self {
        self.with_command(self.command().redone())
    }

    /// What undoing the state's command reports, in its present state.
    pub open spec fn undo_result(&self) -> bool {
        self.command().undo_result()
    }

    /// What redoing the state's command reports, in its present state.
    pub open spec fn redo_result(&self) -> bool {
        self.command().redo_result()
    }

    /// The name of the state's command.
    pub open spec fn name(&self) -> Seq<char> {
        self.command().name()@
    }

    /// A state holding `command` for the document `document_id`.
    pub fn new(command: C, document_id: String) -> (r: Self)
        ensures
            r == Self::holding(command, document_id),
            r.doc_id() == document_id@,
            r.command() == command,
    {
        Self { command, document_id }
    }

    /// Reverts the command; the result is the command's answer.
    pub fn undo(&mut self) -> (r: bool)
        ensures
            r == old(self).undo_result(),
            *final(self) == old(self).undone(),
    {
        self.command.undo()
    }

    /// Performs the command again; the result is the command's answer.
    pub fn redo(&mut self) -> (r: bool)
        ensures
            r == old(self).redo_result(),
            *final(self) == old(self).redone(),
    {
        self.command.redo()
    }

    /// The command's name.
    pub fn get_name(&self) -> (r: String)
        ensures
            r@ == self.name(),
    {
        self.command.get_name()
    }

    /// The id of the document the command belongs to.
    pub fn get_document_id(&self) -> (r: &str)
        ensures
            r@ == self.doc_id(),
    {
        self.document_id.as_str()
    }
}

/// The document ids of a sequence of states, in order.
pub open spec fn doc_ids<C: HistoryCommand>(states: Seq<HistoryState<C>>) -> Seq<Seq<char>> {
    states.map_values(|s: HistoryState<C>| s.doc_id())
}

/// `s` without its oldest entry when it holds more than `max` entries.
pub open spec fn trimmed<C>(s: Seq<HistoryState<C>>, max: nat) -> Seq<HistoryState<C>> {
    if s.len() > max {
        s.drop_first()
    } else {
        s
    }
}

/// Manages a stack of history states
pub struct HistoryManager<C> {
    undo_stack: Vec<HistoryState<C>>,
    redo_stack: Vec<HistoryState<C>>,
    max_undo_levels: usize,
}

impl<C: HistoryCommand> HistoryManager<C> {
    /// The undo stack, oldest first.
    pub closed spec fn undo_states(&self) -> Seq<HistoryState<C>> {
        self.undo_stack@
    }

    /// The redo stack, oldest first.
    pub closed spec fn redo_states(&self) -> Seq<HistoryState<C>> {
        self.redo_stack@
    }

    /// The most undo levels kept.
    pub closed spec fn max_levels(&self) -> nat {
        self.max_undo_levels as nat
    }

    /// The undo stack holds no more than the maximum number of levels.
    pub open spec fn wf(&self) -> bool {
        self.undo_states().len() <= self.max_levels()
    }

    /// What `undo` does: with an empty undo stack no command is called, nothing
    /// changes and the result is `false`; otherwise the newest state is taken off
    /// the undo stack and its command undone, the result being that command's
    /// answer (`undo_result`), and the state, its command as `undo` left it, goes
    /// onto the redo stack on success and back onto the undo stack on failure.
    pub open spec fn undo_step(old: &HistoryManager<C>, new: &HistoryManager<C>, r: bool) -> bool {
        &&& new.max_levels() == old.max_levels()
        &&& if old.undo_states().len() == 0 {
            !r && new.undo_states() == old.undo_states() && new.redo_states() == old.redo_states()
        } else {
            let top = old.undo_states().last();
            &&& r == top.undo_result()
            &&& if r {
                new.undo_states() == old.undo_states().drop_last() && new.redo_states() == old.redo_states().push(
                    top.undone(),
                )
            } else {
                new.undo_states() == old.undo_states().drop_last().push(top.undone()) && new.redo_states()
                    == old.redo_states()
            }
        }
    }

    /// What `redo` does: the mirror image of `undo_step`, redoing the newest redo
    /// state's command (its answer is `redo_result`) and moving the state, its
    /// command as `redo` left it, onto the undo stack on success.
    pub open spec fn redo_step(old: &HistoryManager<C>, new: &HistoryManager<C>, r: bool) -> bool {
        &&& new.max_levels() == old.max_levels()
        &&& if old.redo_states().len() == 0 {
            !r && new.undo_states() == old.undo_states() && new.redo_states() == old.redo_states()
        } else {
            let top = old.redo_states().last();
            &&& r == top.redo_result()
            &&& if r {
                new.redo_states() == old.redo_states().drop_last() && new.undo_states() == old.undo_states().push(
                    top.redone(),
                )
            } else {
                new.redo_states() == old.redo_states().drop_last().push(top.redone()) && new.undo_states()
                    == old.undo_states()
            }
        }
    }

    /// A manager with empty stacks keeping up to 100 undo levels.
    pub fn new() -> (r: Self)
        ensures
            r.undo_states().len() == 0,
            r.redo_states().len() == 0,
            r.max_levels() == 100,
            r.wf(),
    {
        Self { undo_stack: Vec::new(), redo_stack: Vec::new(), max_undo_levels: 100 }
    }

    /// A manager with empty stacks keeping up to `max_levels` undo levels.
    pub fn with_max_levels(max_levels: usize) -> (r: Self)
        ensures
            r.undo_states().len() == 0,
            r.redo_states().len() == 0,
            r.max_levels() == max_levels,
            r.wf(),
    {
        Self { undo_stack: Vec::new(), redo_stack: Vec::new(), max_undo_levels: max_levels }
    }

    /// Executes `command`; the result is the command's answer. On success it is pushed onto the undo stack for
    /// `document_id`, the redo stack is cleared, and the oldest undo state is
    /// dropped when the stack then holds more than the maximum; on failure nothing
    /// changes.
    pub fn add_command(&mut self, command: C, document_id: String) -> (r: bool)
        ensures
            r == command.execute_result(),
            final(self).max_levels() == old(self).max_levels(),
            !r ==> final(self).undo_states() == old(self).undo_states() && final(self).redo_states() == old(
                self,
            ).redo_states(),
            r ==> final(self).redo_states().len() == 0,
            r ==> final(self).undo_states() == trimmed(
                old(self).undo_states().push(HistoryState::holding(command.executed(), document_id)),
                old(self).max_levels(),
            ),
            old(self).wf() ==> final(self).wf(),
    {
        let mut command = command;
        let success = command.execute();
        if success {
            let state = HistoryState::new(command, document_id);
            let ghost pushed = self.undo_stack@.push(state);
            self.undo_stack.push(state);
            self.redo_stack.clear();
            if self.undo_stack.len() > self.max_undo_levels {
                self.undo_stack.remove(0);
                assert(self.undo_stack@ =~= pushed.drop_first());
            }
            assert(self.undo_stack@ == trimmed(old(self).undo_states().push(state), old(self).max_levels()));
        }
        success
    }

    /// Undoes the newest command; see `undo_step`.
    pub fn undo(&mut self) -> (r: bool)
        ensures
            Self::undo_step(old(self), final(self), r),
            old(self).wf() ==> final(self).wf(),
    {
        if self.undo_stack.len() > 0 {
            let ghost old_mine = self.undo_stack@;
            let ghost old_theirs = self.redo_stack@;
            let mut state = self.undo_stack.pop().unwrap();
            assert(self.undo_stack@ =~= old_mine.drop_last());
            let success = state.undo();
            if success {
                self.redo_stack.push(state);
                assert(self.redo_stack@.drop_last() =~= old_theirs);
                return true;
            } else {
                self.undo_stack.push(state);
                assert(self.undo_stack@.drop_last() =~= old_mine.drop_last());
            }
        }
        false
    }

    /// Redoes the newest undone command; see `redo_step`.
    pub fn redo(&mut self) -> (r: bool)
        ensures
            Self::redo_step(old(self), final(self), r),
    {
        if self.redo_stack.len() > 0 {
            let ghost old_mine = self.redo_stack@;
            let ghost old_theirs = self.undo_stack@;
            let mut state = self.redo_stack.pop().unwrap();
            assert(self.redo_stack@ =~= old_mine.drop_last());
            let success = state.redo();
            if success {
                self.undo_stack.push(state);
                assert(self.undo_stack@.drop_last() =~= old_theirs);
                return true;
            } else {
                self.redo_stack.push(state);
                assert(self.redo_stack@.drop_last() =~= old_mine.drop_last());
            }
        }
        false
    }

    /// Whether there is a command to undo.
    pub fn can_undo(&self) -> (r: bool)
        ensures
            r == (self.undo_states().len() > 0),
    {
        !self.undo_stack.is_empty()
    }

    /// Whether there is a command to redo.
    pub fn can_redo(&self) -> (r: bool)
        ensures
            r == (self.redo_states().len() > 0),
    {
        !self.redo_stack.is_empty()
    }

    /// The name of the command that `undo` would revert, if any.
    pub fn get_undo_name(&self) -> (r: Option<String>)
        ensures
            r is Some <==> self.undo_states().len() > 0,
            r matches Some(n) ==> n@ == self.undo_states().last().name(),
    {
        let n = self.undo_stack.len();
        if n > 0 {
            Some(self.undo_stack[n - 1].get_name())
        } else {
            None
        }
    }

    /// The name of the command that `redo` would perform again, if any.
    pub fn get_redo_name(&self) -> (r: Option<String>)
        ensures
            r is Some <==> self.redo_states().len() > 0,
            r matches Some(n) ==> n@ == self.redo_states().last().name(),
    {
        let n = self.redo_stack.len();
        if n > 0 {
            Some(self.redo_stack[n - 1].get_name())
        } else {
            None
        }
    }

    /// Empties both stacks.
    pub fn clear_history(&mut self)
        ensures
            final(self).undo_states().len() == 0,
            final(self).redo_states().len() == 0,
            final(self).max_levels() == old(self).max_levels(),
    {
        self.undo_stack.clear();
        self.redo_stack.clear();
    }

    /// Drops every state of the document `document_id` from both stacks, keeping
    /// the order of the others.
    pub fn clear_document_history(&mut self, document_id: &str)
        ensures
            final(self).undo_states() == old(self).undo_states().filter(other_document::<C>(document_id@)),
            final(self).redo_states() == old(self).redo_states().filter(other_document::<C>(document_id@)),
            final(self).max_levels() == old(self).max_levels(),
            old(self).wf() ==> final(self).wf(),
    {
        let mut undo_stack = Vec::new();
        std::mem::swap(&mut undo_stack, &mut self.undo_stack);
        self.undo_stack = retain_other_documents(undo_stack, document_id);
        let mut redo_stack = Vec::new();
        std::mem::swap(&mut redo_stack, &mut self.redo_stack);
        self.redo_stack = retain_other_documents(redo_stack, document_id);
        proof {
            old(self).undo_states().lemma_filter_len(other_document::<C>(document_id@));
        }
    }

    /// Sets the maximum number of undo levels, dropping the oldest undo states
    /// beyond it.
    pub fn set_max_undo_levels(&mut self, levels: usize)
        ensures
            final(self).max_levels() == levels,
            final(self).undo_states() == if old(self).undo_states().len() > levels {
                old(self).undo_states().subrange(
                    old(self).undo_states().len() - levels,
                    old(self).undo_states().len() as int,
                )
            } else {
                old(self).undo_states()
            },
            final(self).redo_states() == old(self).redo_states(),
            final(self).wf(),
    {
        self.max_undo_levels = levels;
        let ghost orig = self.undo_stack@;
        while self.undo_stack.len() > self.max_undo_levels
            invariant
                self.max_undo_levels == levels,
                self.redo_stack@ == old(self).redo_states(),
                orig == old(self).undo_states(),
                self.undo_stack@.len() <= orig.len(),
                self.undo_stack@.len() >= levels ==> self.undo_stack@ == orig.subrange(
                    orig.len() - self.undo_stack@.len(),
                    orig.len() as int,
                ),
                orig.len() <= levels ==> self.undo_stack@ == orig,
                orig.len() > levels ==> self.undo_stack@.len() >= levels,
            decreases self.undo_stack@.len(),
        {
            let ghost before = self.undo_stack@;
            self.undo_stack.remove(0);
            assert(self.undo_stack@ =~= orig.subrange(orig.len() - self.undo_stack@.len(), orig.len() as int));
        }
    }
}

/// Facts about building states: a state built with `holding` or `with_command`
/// holds the given command for the given document, and giving a state back its
/// own command leaves it as it was.
pub proof fn lemma_state_parts<C: HistoryCommand>(s: HistoryState<C>, command: C, document_id: String)
    ensures
        HistoryState::holding(command, document_id).command() == command,
        HistoryState::holding(command, document_id).doc_id() == document_id@,
        s.with_command(command).command() == command,
        s.with_command(command).doc_id() == s.doc_id(),
        s.with_command(s.command()) == s,
{
}

/// Undoing and then redoing, both successfully, gives back the very same redo
/// stack, and the undo stack with its newest state as undo then redo left it;
/// where redoing a command undoes its undo, the very same undo stack.
pub proof fn lemma_undo_then_redo<C: HistoryCommand>(m0: &HistoryManager<C>, m1: &HistoryManager<C>, m2: &HistoryManager<C>)
    requires
        HistoryManager::<C>::undo_step(m0, m1, true),
        HistoryManager::<C>::redo_step(m1, m2, true),
    ensures
        m0.undo_states().len() > 0,
        m2.redo_states() == m0.redo_states(),
        m2.undo_states() == m0.undo_states().drop_last().push(m0.undo_states().last().undone().redone()),
        m0.undo_states().last().command().undone().redone() == m0.undo_states().last().command()
            ==> m2.undo_states() == m0.undo_states(),
        m2.max_levels() == m0.max_levels(),
{
    let u0 = m0.undo_states();
    assert(m1.redo_states().drop_last() =~= m0.redo_states());
    assert(m1.redo_states().last() == u0.last().undone());
    if u0.last().command().undone().redone() == u0.last().command() {
        assert(u0.last().undone().redone() == u0.last());
        assert(u0.drop_last().push(u0.last()) =~= u0);
    }
}

/// Redoing and then undoing, both successfully, gives back the very same undo
/// stack, and the redo stack with its newest state as redo then undo left it;
/// where undoing a command undoes its redo, the very same redo stack.
pub proof fn lemma_redo_then_undo<C: HistoryCommand>(m0: &HistoryManager<C>, m1: &HistoryManager<C>, m2: &HistoryManager<C>)
    requires
        HistoryManager::<C>::redo_step(m0, m1, true),
        HistoryManager::<C>::undo_step(m1, m2, true),
    ensures
        m0.redo_states().len() > 0,
        m2.undo_states() == m0.undo_states(),
        m2.redo_states() == m0.redo_states().drop_last().push(m0.redo_states().last().redone().undone()),
        m0.redo_states().last().command().redone().undone() == m0.redo_states().last().command()
            ==> m2.redo_states() == m0.redo_states(),
        m2.max_levels() == m0.max_levels(),
{
    let r0 = m0.redo_states();
    assert(m1.undo_states().drop_last() =~= m0.undo_states());
    assert(m1.undo_states().last() == r0.last().redone());
    if r0.last().command().redone().undone() == r0.last().command() {
        assert(r0.last().redone().undone() == r0.last());
        assert(r0.drop_last().push(r0.last()) =~= r0);
    }
}

/// A failed undo or redo leaves the document ids on both stacks unchanged.
pub proof fn lemma_failed_step_keeps_ids<C: HistoryCommand>(m0: &HistoryManager<C>, m1: &HistoryManager<C>, undo: bool)
    requires
        undo ==> HistoryManager::<C>::undo_step(m0, m1, false),
        !undo ==> HistoryManager::<C>::redo_step(m0, m1, false),
    ensures
        doc_ids(m1.undo_states()) == doc_ids(m0.undo_states()),
        doc_ids(m1.redo_states()) == doc_ids(m0.redo_states()),
{
    let (a0, a1) = if undo {
        (m0.undo_states(), m1.undo_states())
    } else {
        (m0.redo_states(), m1.redo_states())
    };
    if a0.len() > 0 {
        assert forall|i: int| 0 <= i < a0.len() implies doc_ids(a1)[i] == doc_ids(a0)[i] by {
            if i < a0.len() - 1 {
                assert(a1[i] == a1.drop_last()[i]);
                assert(a0[i] == a0.drop_last()[i]);
            }
        }
        assert(doc_ids(a1) =~= doc_ids(a0));
    }
}

/// Layer visibility change command
#[derive(Debug)]
pub struct LayerVisibilityCommand {
    layer_id: String,
    old_visibility: bool,
    new_visibility: bool,
    applied: bool,
}

impl LayerVisibilityCommand {
    /// Whether the command has been executed.
    pub closed spec fn is_applied(&self) -> bool {
        self.applied
    }

    /// The layer the command changes.
    pub closed spec fn layer(&self) -> Seq<char> {
        self.layer_id@
    }

    /// The visibility before the change.
    pub closed spec fn visibility_before(&self) -> bool {
        self.old_visibility
    }

    /// The visibility after the change.
    pub closed spec fn visibility_after(&self) -> bool {
        self.new_visibility
    }

    /// This command, marked as executed or not as `applied` says.
    pub closed spec fn with_applied(&self, applied: bool) -> Self {
        LayerVisibilityCommand {
            layer_id: self.layer_id,
            old_visibility: self.old_visibility,
            new_visibility: self.new_visibility,
            applied,
        }
    }

    /// A not yet executed command changing layer `layer_id` from `old_visibility`
    /// to `new_visibility`.
    pub fn new(layer_id: String, old_visibility: bool, new_visibility: bool) -> (r: Self)
        ensures
            r.layer() == layer_id@,
            r.visibility_before() == old_visibility,
            r.visibility_after() == new_visibility,
            !r.is_applied(),
    {
        Self { layer_id, old_visibility, new_visibility, applied: false }
    }
}

/// A string reading "Change Layer Visibility", the name of a visibility change.
pub open spec fn visibility_change_name() -> String {
    choose|s: String| #![trigger s@] s@ == "Change Layer Visibility"@
}

/// Any string reading "Change Layer Visibility" shows that
/// `visibility_change_name` reads so too.
proof fn lemma_visibility_change_name(witness: &String)
    requires
        witness@ == "Change Layer Visibility"@,
    ensures
        visibility_change_name()@ == "Change Layer Visibility"@,
{
}

impl HistoryCommand for LayerVisibilityCommand {
    /// Executing always succeeds.
    open spec fn execute_result(&self) -> bool {
        true
    }

    /// Executing marks the command as executed.
    open spec fn executed(&self) -> Self {
        self.with_applied(true)
    }

    /// Undoing succeeds once the command has been executed.
    open spec fn undo_result(&self) -> bool {
        self.is_applied()
    }

    /// Undoing leaves the command as it is.
    open spec fn undone(&self) -> Self {
        *self
    }

    /// "Change Layer Visibility".
    open spec fn name(&self) -> String {
        visibility_change_name()
    }

    /// Executes again.
    fn redo(&mut self) -> (r: bool) {
        self.execute()
    }

    /// Applies the change; always succeeds.
    fn execute(&mut self) -> (r: bool)
        ensures
            r,
            final(self).is_applied(),
            final(self).layer() == old(self).layer(),
            final(self).visibility_before() == old(self).visibility_before(),
            final(self).visibility_after() == old(self).visibility_after(),
    {
        self.applied = true;
        true
    }

    /// Reverts the change; succeeds exactly when the command has been executed.
    fn undo(&mut self) -> (r: bool)
        ensures
            r == old(self).is_applied(),
            final(self).is_applied() == old(self).is_applied(),
            final(self).layer() == old(self).layer(),
            final(self).visibility_before() == old(self).visibility_before(),
            final(self).visibility_after() == old(self).visibility_after(),
    {
        if !self.applied {
            return false;
        }
        true
    }

    /// "Change Layer Visibility".
    fn get_name(&self) -> (r: String)
        ensures
            r@ == "Change Layer Visibility"@,
    {
        let r = "Change Layer Visibility".to_string();
        proof {
            lemma_visibility_change_name(&r);
        }
        r
    }
}

/// An executed visibility change is what executing it again, or undoing and then
/// redoing it, leaves: so once recorded, undoing and redoing it gives back the
/// very same history.
pub proof fn lemma_visibility_round_trip(c: LayerVisibilityCommand)
    requires
        c.is_applied(),
    ensures
        c.executed() == c,
        c.undone().redone() == c,
{
}

/// For visibility changes, undoing and then redoing, both successfully, gives
/// back the very same undo and redo stacks.
pub proof fn lemma_visibility_undo_then_redo(
    m0: &HistoryManager<LayerVisibilityCommand>,
    m1: &HistoryManager<LayerVisibilityCommand>,
    m2: &HistoryManager<LayerVisibilityCommand>,
)
    requires
        HistoryManager::<LayerVisibilityCommand>::undo_step(m0, m1, true),
        HistoryManager::<LayerVisibilityCommand>::redo_step(m1, m2, true),
    ensures
        m2.undo_states() == m0.undo_states(),
        m2.redo_states() == m0.redo_states(),
{
    lemma_undo_then_redo(m0, m1, m2);
    lemma_visibility_round_trip(m0.undo_states().last().command());
}

/// What clearing one document's history keeps of a stack: every state of any other
/// document stays, no state of the cleared document is left, and nothing new comes in.
proof fn lemma_filter_keeps_others<C: HistoryCommand>(states: Seq<HistoryState<C>>, document_id: Seq<char>)
    ensures
        forall|i: int|
            0 <= i < states.len() && states[i].doc_id() != document_id ==> states.filter(
                other_document::<C>(document_id),
            ).contains(#[trigger] states[i]),
        forall|j: int|
            0 <= j < states.filter(other_document::<C>(document_id)).len() ==> (#[trigger] states.filter(
                other_document::<C>(document_id),
            )[j]).doc_id() != document_id && states.contains(states.filter(other_document::<C>(document_id))[j]),
{
    let kept = states.filter(other_document::<C>(document_id));
    assert forall|i: int| 0 <= i < states.len() && states[i].doc_id() != document_id implies kept.contains(
        #[trigger] states[i],
    ) by {
        states.lemma_filter_contains(other_document::<C>(document_id), i);
    }
    assert forall|j: int| 0 <= j < kept.len() implies (#[trigger] kept[j]).doc_id() != document_id && states.contains(
        kept[j],
    ) by {
        states.lemma_filter_pred(other_document::<C>(document_id), j);
        assert(kept.contains(kept[j]));
        states.lemma_filter_contains_rev(other_document::<C>(document_id), kept[j]);
    }
}

/// Clearing the history of the document `document_id` keeps on each stack every
/// state of any other document, leaves no state of that document, and brings in
/// no state that was not there.
pub proof fn lemma_clear_document_keeps_others<C: HistoryCommand>(
    m0: &HistoryManager<C>,
    m1: &HistoryManager<C>,
    document_id: Seq<char>,
)
    requires
        m1.undo_states() == m0.undo_states().filter(other_document::<C>(document_id)),
        m1.redo_states() == m0.redo_states().filter(other_document::<C>(document_id)),
    ensures
        forall|i: int|
            0 <= i < m0.undo_states().len() && m0.undo_states()[i].doc_id() != document_id
                ==> m1.undo_states().contains(#[trigger] m0.undo_states()[i]),
        forall|i: int|
            0 <= i < m0.redo_states().len() && m0.redo_states()[i].doc_id() != document_id
                ==> m1.redo_states().contains(#[trigger] m0.redo_states()[i]),
        forall|j: int|
            0 <= j < m1.undo_states().len() ==> (#[trigger] m1.undo_states()[j]).doc_id() != document_id
                && m0.undo_states().contains(m1.undo_states()[j]),
        forall|j: int|
            0 <= j < m1.redo_states().len() ==> (#[trigger] m1.redo_states()[j]).doc_id() != document_id
                && m0.redo_states().contains(m1.redo_states()[j]),
{
    lemma_filter_keeps_others(m0.undo_states(), document_id);
    lemma_filter_keeps_others(m0.redo_states(), document_id);
}

/// The predicate "belongs to a document other than `document_id`".
pub open spec fn other_document<C: HistoryCommand>(document_id: Seq<char>) -> spec_fn(HistoryState<C>) -> bool {
    |s: HistoryState<C>| s.doc_id() != document_id
}

/// The states of `states` that do not belong to `document_id`, in order.
fn retain_other_documents<C: HistoryCommand>(states: Vec<HistoryState<C>>, document_id: &str) -> (r: Vec<HistoryState<C>>)
    ensures
        r@ == states@.filter(other_document::<C>(document_id@)),
{
    let ghost orig = states@;
    let mut kept: Vec<HistoryState<C>> = Vec::new();
    let mut rest = states;
    while rest.len() > 0
        invariant
            rest@.len() <= orig.len(),
            rest@ == orig.subrange(orig.len() - rest@.len(), orig.len() as int),
            kept@ == orig.subrange(0, orig.len() - rest@.len()).filter(other_document::<C>(document_id@)),
        decreases rest@.len(),
    {
        let ghost done = orig.len() - rest@.len();
        assert(rest@[0] == orig[done]);
        let state = rest.remove(0);
        proof {
            assert(state == orig[done]);
            assert(orig.subrange(0, done + 1) =~= orig.subrange(0, done).push(state));
            orig.subrange(0, done).lemma_filter_push(state, other_document::<C>(document_id@));
        }
        let keep = !crate::text::str_eq(state.get_document_id(), document_id);
        if keep {
            kept.push(state);
        }
        assert(rest@ =~= orig.subrange(orig.len() - rest@.len(), orig.len() as int));
    }
    assert(orig.subrange(0, orig.len() as int) =~= orig);
    kept
}

} // verus!
