//! Where the text service is registered for the current user, and the
//! values that record each profile registration step.
use crate::text::{decimal, push_all, push_char, push_decimal};
use crate::tsf::metadata::TEXT_SERVICE_CLSID;
use crate::tsf::profile::{ProfileRegistrar, ProfileResult, StepView};
use vstd::prelude::*;

verus! {

/// Registry key that records the service for the current user.
pub const NOVATYPE_TSF_KEY: &'static str = "Software\\NovaType\\TSF";

/// Registry key under which the COM class is registered for the user.
pub const CLASSES_KEY: &'static str = "Software\\Classes\\CLSID";

/// The registry key of the service's COM class.
pub fn clsid_key_path() -> (r: String)
    ensures
        r@ == CLASSES_KEY@.push('\\') + TEXT_SERVICE_CLSID@,
{
    let mut s = String::from_str(CLASSES_KEY);
    push_char(&mut s, '\\');
    push_all(&mut s, TEXT_SERVICE_CLSID);
    s
}

/// The decimal spelling of `n`, with a leading `-` when negative.
pub open spec fn signed_decimal(n: i32) -> Seq<char> {
    if n < 0 {
        seq!['-'] + decimal((-(n as int)) as nat)
    } else {
        decimal(n as nat)
    }
}

/// The value recorded for a registration step.
pub open spec fn step_value(step: StepView) -> Seq<char> {
    if step.0 == 0 {
        "RegisterTextService:"@ + step.1
    } else if step.0 == 1 {
        "RegisterLanguageProfile:"@ + step.1 + seq![':'] + step.2 + seq![':'] + step.3 + seq![':']
            + signed_decimal(step.4)
    } else {
        "EnableLanguageProfile:"@ + step.1 + seq![':'] + step.2
    }
}

/// The name under which step `index` is recorded.
pub open spec fn step_name(index: nat) -> Seq<char> {
    "ProfileStep"@ + decimal(index)
}

/// The records for a sequence of calls: each one's name and value.
pub open spec fn step_records(steps: Seq<(StepView, ProfileResult<()>)>) -> Seq<(Seq<char>, Seq<char>)> {
    Seq::new(steps.len(), |i: int| (step_name(i as nat), step_value(steps[i].0)))
}

/// A registrar that turns each registration step into a named value for
/// the service's registry key; writing the values is left to the caller.
pub struct StepRecorder {
    entries: Vec<(String, String, Ghost<StepView>)>,
}

impl StepRecorder {
    #[verifier::type_invariant]
    spec fn inv(self) -> bool {
        forall|i: int|
            0 <= i < self.entries@.len() ==> (#[trigger] self.entries@[i]).0@ == step_name(i as nat)
                && self.entries@[i].1@ == step_value(self.entries@[i].2@)
    }

    /// The recorded names and values as plain values.
    pub closed spec fn records_view(&self) -> Seq<(Seq<char>, Seq<char>)> {
        self.entries@.map_values(|e: (String, String, Ghost<StepView>)| (e.0@, e.1@))
    }

    /// A recorder with nothing recorded.
    pub fn new() -> (r: StepRecorder)
        ensures
            r.records_view() == Seq::<(Seq<char>, Seq<char>)>::empty(),
            r.requested() == Seq::<(StepView, ProfileResult<()>)>::empty(),
    {
        let r = StepRecorder { entries: Vec::new() };
        assert(r.records_view() =~= Seq::<(Seq<char>, Seq<char>)>::empty());
        assert(r.requested() =~= Seq::<(StepView, ProfileResult<()>)>::empty());
        r
    }

    /// The recorded names and values, in step order: one record per
    /// registrar call, named after its position.
    pub fn records(&self) -> (r: Vec<(String, String)>)
        ensures
            r@.map_values(|p: (String, String)| (p.0@, p.1@)) == self.records_view(),
            self.records_view() == step_records(self.requested()),
    {
        proof {
            use_type_invariant(self);
        }
        let mut r: Vec<(String, String)> = Vec::new();
        let mut i: usize = 0;
        while i < self.entries.len()
            invariant
                i <= self.entries@.len(),
                r@.map_values(|p: (String, String)| (p.0@, p.1@)) == self.records_view().subrange(
                    0,
                    i as int,
                ),
            decreases self.entries@.len() - i,
        {
            let name = self.entries[i].0.clone();
            let value = self.entries[i].1.clone();
            let ghost before = r@;
            r.push((name, value));
            assert(r@ == before.push((name, value)));
            assert(r@.map_values(|p: (String, String)| (p.0@, p.1@)) =~= before.map_values(
                |p: (String, String)| (p.0@, p.1@),
            ).push((self.entries@[i as int].0@, self.entries@[i as int].1@)));
            assert(r@.map_values(|p: (String, String)| (p.0@, p.1@)) =~= self.records_view().subrange(
                0,
                i + 1,
            ));
            i += 1;
        }
        assert(self.records_view().subrange(0, i as int) =~= self.records_view());
        assert(self.records_view() =~= step_records(self.requested()));
        r
    }

    fn record(&mut self, value: String, step: Ghost<StepView>)
        requires
            value@ == step_value(step@),
        ensures
            final(self).requested() == old(self).requested().push((step@, Ok::<(), String>(()))),
    {
        proof {
            use_type_invariant(&*self);
        }
        let mut name = String::from_str("ProfileStep");
        push_decimal(&mut name, self.entries.len() as u64);
        let mut entries: Vec<(String, String, Ghost<StepView>)> = Vec::new();
        std::mem::swap(&mut entries, &mut self.entries);
        let ghost before = entries@;
        entries.push((name, value, step));
        assert forall|i: int| 0 <= i < entries@.len() implies (#[trigger] entries@[i]).0@ == step_name(
            i as nat,
        ) && entries@[i].1@ == step_value(entries@[i].2@) by {
            if i < before.len() {
                assert(entries@[i] == before[i]);
            }
        }
        std::mem::swap(&mut entries, &mut self.entries);
        assert(self.requested() =~= old(self).requested().push((step@, Ok::<(), String>(()))));
    }
}

fn push_i32(s: &mut String, n: i32)
    ensures
        final(s)@ == old(s)@ + signed_decimal(n),
{
    if n < 0 {
        push_char(s, '-');
        let m: u64 = (0 - (n as i64)) as u64;
        push_decimal(s, m);
    } else {
        push_decimal(s, n as u64);
    }
}

impl ProfileRegistrar for StepRecorder {
    /// A recorder logs every call.
    open spec fn keeps_log(&self) -> bool {
        true
    }

    /// The steps recorded so far, in order, each with whether its call
    /// succeeded (recording always does).
    closed spec fn requested(&self) -> Seq<(StepView, ProfileResult<()>)> {
        self.entries@.map_values(|e: (String, String, Ghost<StepView>)| (e.2@, Ok::<(), String>(())))
    }

    fn register_text_service(&mut self, clsid: &str) -> (r: ProfileResult<()>)
        ensures
            r is Ok,
            final(self).requested() == old(self).requested().push(
                ((0, clsid@, Seq::empty(), Seq::empty(), 0), Ok::<(), String>(())),
            ),
    {
        let mut value = String::from_str("RegisterTextService:");
        push_all(&mut value, clsid);
        self.record(value, Ghost((0, clsid@, Seq::empty(), Seq::empty(), 0)));
        Ok(())
    }

    fn register_language_profile(
        &mut self,
        clsid: &str,
        language_tag: &str,
        description: &str,
        icon_index: i32,
    ) -> (r: ProfileResult<()>)
        ensures
            r is Ok,
            final(self).requested() == old(self).requested().push(
                ((1, clsid@, language_tag@, description@, icon_index), Ok::<(), String>(())),
            ),
    {
        let mut value = String::from_str("RegisterLanguageProfile:");
        push_all(&mut value, clsid);
        push_char(&mut value, ':');
        push_all(&mut value, language_tag);
        push_char(&mut value, ':');
        push_all(&mut value, description);
        push_char(&mut value, ':');
        push_i32(&mut value, icon_index);
        assert(value@ =~= step_value((1, clsid@, language_tag@, description@, icon_index)));
        self.record(value, Ghost((1, clsid@, language_tag@, description@, icon_index)));
        Ok(())
    }

    fn enable_language_profile(&mut self, clsid: &str, language_tag: &str) -> (r: ProfileResult<()>)
        ensures
            r is Ok,
            final(self).requested() == old(self).requested().push(
                ((2, clsid@, language_tag@, Seq::empty(), 0), Ok::<(), String>(())),
            ),
    {
        let mut value = String::from_str("EnableLanguageProfile:");
        push_all(&mut value, clsid);
        push_char(&mut value, ':');
        push_all(&mut value, language_tag);
        assert(value@ =~= step_value((2, clsid@, language_tag@, Seq::empty(), 0)));
        self.record(value, Ghost((2, clsid@, language_tag@, Seq::empty(), 0)));
        Ok(())
    }
}

} // verus!
