//! Text service profile and its registration plan.
use crate::tsf::metadata::{
    ICON_INDEX, LANGUAGE_TAG, PROFILE_DESCRIPTION, PROFILE_DISPLAY_NAME, TEXT_SERVICE_CLSID,
};
use vstd::prelude::*;

verus! {

/// Immutable profile metadata shared by installer and COM registration.
#[derive(Debug, Clone, PartialEq, Eq)]
pub struct TsfProfile {
    pub clsid: &'static str,
    pub language_tag: &'static str,
    pub display_name: &'static str,
    pub description: &'static str,
    pub icon_index: i32,
}

/// A deterministic registration step.
#[derive(Debug, Clone, PartialEq, Eq)]
pub enum ProfileRegistrationStep {
    RegisterTextService { clsid: String },
    RegisterLanguageProfile {
        clsid: String,
        language_tag: String,
        description: String,
        icon_index: i32,
    },
    EnableLanguageProfile { clsid: String, language_tag: String },
}

/// Result of a registrar call.
pub type ProfileResult<T> = Result<T, String>;

/// Adapter for the platform profile registration calls, implemented by the
/// platform layer.
///
/// An implementation may keep a log of the calls it receives and say so with
/// `keeps_log`; each call then appends the step it asked for and what it
/// returned. Implementations that keep no log promise nothing.
pub trait ProfileRegistrar {
    /// Whether this registrar logs the calls it receives.
    open spec fn keeps_log(&self) -> bool {
        false
    }

    /// The calls received so far, in order: each as the step it asked for
    /// and what the call returned.
    open spec fn requested(&self) -> Seq<(StepView, ProfileResult<()>)> {
        Seq::empty()
    }

    /// Registers the text service COM class.
    fn register_text_service(&mut self, clsid: &str) -> (r: ProfileResult<()>)
        ensures
            old(self).keeps_log() ==> final(self).keeps_log() && final(self).requested() == old(
                self,
            ).requested().push(((0, clsid@, Seq::empty(), Seq::empty(), 0), r)),
    ;

    /// Registers a language profile for this text service.
    fn register_language_profile(
        &mut self,
        clsid: &str,
        language_tag: &str,
        description: &str,
        icon_index: i32,
    ) -> (r: ProfileResult<()>)
        ensures
            old(self).keeps_log() ==> final(self).keeps_log() && final(self).requested() == old(
                self,
            ).requested().push(((1, clsid@, language_tag@, description@, icon_index), r)),
    ;

    /// Enables the language profile.
    fn enable_language_profile(&mut self, clsid: &str, language_tag: &str) -> (r: ProfileResult<()>)
        ensures
            old(self).keeps_log() ==> final(self).keeps_log() && final(self).requested() == old(
                self,
            ).requested().push(((2, clsid@, language_tag@, Seq::empty(), 0), r)),
    ;
}

/// A registration step as plain values: its kind (0 register service,
/// 1 register profile, 2 enable profile), clsid, language tag, description
/// and icon index.
pub type StepView = (nat, Seq<char>, Seq<char>, Seq<char>, i32);

impl DeepView for ProfileRegistrationStep {
    type V = StepView;

    open spec fn deep_view(&self) -> StepView {
        match self {
            ProfileRegistrationStep::RegisterTextService { clsid } => (
                0,
                clsid@,
                Seq::empty(),
                Seq::empty(),
                0,
            ),
            ProfileRegistrationStep::RegisterLanguageProfile {
                clsid,
                language_tag,
                description,
                icon_index,
            } => (1, clsid@, language_tag@, description@, *icon_index),
            ProfileRegistrationStep::EnableLanguageProfile { clsid, language_tag } => (
                2,
                clsid@,
                language_tag@,
                Seq::empty(),
                0,
            ),
        }
    }
}

/// The plan for a profile: register the service, register the language
/// profile, enable it.
pub open spec fn plan_of(p: TsfProfile) -> Seq<StepView> {
    seq![
        (0, p.clsid@, Seq::empty(), Seq::empty(), 0),
        (1, p.clsid@, p.language_tag@, p.description@, p.icon_index),
        (2, p.clsid@, p.language_tag@, Seq::empty(), 0),
    ]
}

impl TsfProfile {
    /// The NovaType profile, built from the service metadata.
    pub fn novatype() -> (r: TsfProfile)
        ensures
            r.clsid@ == TEXT_SERVICE_CLSID@,
            r.language_tag@ == LANGUAGE_TAG@,
            r.display_name@ == PROFILE_DISPLAY_NAME@,
            r.description@ == PROFILE_DESCRIPTION@,
            r.icon_index == ICON_INDEX,
    {
        TsfProfile {
            clsid: TEXT_SERVICE_CLSID,
            language_tag: LANGUAGE_TAG,
            display_name: PROFILE_DISPLAY_NAME,
            description: PROFILE_DESCRIPTION,
            icon_index: ICON_INDEX,
        }
    }

    /// The registration steps, in the order they must run.
    pub fn registration_plan(&self) -> (r: Vec<ProfileRegistrationStep>)
        ensures
            r.deep_view() == plan_of(*self),
    {
        let r = vec![
            ProfileRegistrationStep::RegisterTextService { clsid: String::from_str(self.clsid) },
            ProfileRegistrationStep::RegisterLanguageProfile {
                clsid: String::from_str(self.clsid),
                language_tag: String::from_str(self.language_tag),
                description: String::from_str(self.description),
                icon_index: self.icon_index,
            },
            ProfileRegistrationStep::EnableLanguageProfile {
                clsid: String::from_str(self.clsid),
                language_tag: String::from_str(self.language_tag),
            },
        ];
        assert(r.deep_view() =~= plan_of(*self));
        r
    }
}

/// The calls of steps that all succeeded.
pub open spec fn succeeded(steps: Seq<StepView>) -> Seq<(StepView, ProfileResult<()>)> {
    steps.map_values(|s: StepView| (s, Ok::<(), String>(())))
}

/// Executes a registration plan: each step is handed to the registrar in
/// order, and the first error stops the plan and is returned. A registrar
/// that keeps a log receives exactly the steps up to the first failure.
pub fn execute_registration_plan<R: ProfileRegistrar>(
    registrar: &mut R,
    steps: &[ProfileRegistrationStep],
) -> (r: ProfileResult<()>)
    ensures
        steps@.len() == 0 ==> r is Ok && *final(registrar) == *old(registrar),
        old(registrar).keeps_log() ==> final(registrar).keeps_log(),
        old(registrar).keeps_log() ==> match r {
            Ok(_) => final(registrar).requested() == old(registrar).requested() + succeeded(
                steps.deep_view(),
            ),
            Err(e) => exists|k: int|
                0 <= k < steps@.len() && final(registrar).requested() == old(
                    registrar,
                ).requested() + succeeded(steps.deep_view().subrange(0, k)).push(
                    (steps.deep_view()[k], Err::<(), String>(e)),
                ),
        },
{
    let ghost start = registrar.requested();
    let ghost logs = registrar.keeps_log();
    let ghost all = steps.deep_view();
    let mut i: usize = 0;
    while i < steps.len()
        invariant
            i <= steps@.len(),
            all == steps.deep_view(),
            start == old(registrar).requested(),
            logs == old(registrar).keeps_log(),
            i == 0 ==> *registrar == *old(registrar),
            logs ==> registrar.keeps_log(),
            logs ==> registrar.requested() == start + succeeded(all.subrange(0, i as int)),
        decreases steps@.len() - i,
    {
        let ghost before = registrar.requested();
        let result = match &steps[i] {
            ProfileRegistrationStep::RegisterTextService { clsid } => {
                registrar.register_text_service(clsid.as_str())
            },
            ProfileRegistrationStep::RegisterLanguageProfile {
                clsid,
                language_tag,
                description,
                icon_index,
            } => {
                registrar.register_language_profile(
                    clsid.as_str(),
                    language_tag.as_str(),
                    description.as_str(),
                    *icon_index,
                )
            },
            ProfileRegistrationStep::EnableLanguageProfile { clsid, language_tag } => {
                registrar.enable_language_profile(clsid.as_str(), language_tag.as_str())
            },
        };
        assert(logs ==> registrar.requested() == before.push((all[i as int], result)));
        match result {
            Err(e) => {
                assert(logs ==> registrar.requested() =~= start + succeeded(
                    all.subrange(0, i as int),
                ).push((all[i as int], Err::<(), String>(e))));
                return Err(e);
            },
            Ok(u) => {
                assert(u == ());
            },
        }
        assert(succeeded(all.subrange(0, i + 1)) =~= succeeded(all.subrange(0, i as int)).push(
            (all[i as int], Ok::<(), String>(())),
        ));
        assert(logs ==> registrar.requested() =~= start + succeeded(all.subrange(0, i + 1)));
        i += 1;
    }
    assert(all.subrange(0, i as int) =~= all);
    Ok(())
}

} // verus!
