use novatype::tsf::com::{
    can_unload, create_instance, get_class_object, Guid, CLASS_E_CLASSNOTAVAILABLE,
    CLASS_E_NOAGGREGATION, E_NOINTERFACE, E_POINTER, S_OK,
};
use novatype::tsf::keymap::{map_vk, VK_BACK, VK_ESCAPE, VK_OEM_MINUS, VK_SPACE};
use novatype::tsf::metadata::{LANGUAGE_TAG, PROFILE_DISPLAY_NAME, TEXT_SERVICE_CLSID};
use novatype::tsf::profile::{
    execute_registration_plan, ProfileRegistrar, ProfileRegistrationStep, ProfileResult,
    TsfProfile,
};
use novatype::tsf::registration::{clsid_key_path, StepRecorder, CLASSES_KEY, NOVATYPE_TSF_KEY};
use novatype::tsf::session::Key;
use novatype::tsf::sink::SinkState;

#[test]
fn maps_letters_digits_and_controls() {
    assert_eq!(map_vk(0x4E), Some(Key::Char('n')));
    assert_eq!(map_vk(0x31), Some(Key::Digit(1)));
    assert_eq!(map_vk(VK_SPACE), Some(Key::Space));
    assert_eq!(map_vk(VK_BACK), Some(Key::Backspace));
    assert_eq!(map_vk(VK_ESCAPE), Some(Key::Escape));
    assert_eq!(map_vk(VK_OEM_MINUS), Some(Key::PagePrev));
}

#[test]
fn ignores_unknown_keys() {
    assert_eq!(map_vk(0x70), None); // F1
}

#[test]
fn metadata_is_stable() {
    assert_eq!(PROFILE_DISPLAY_NAME, "NovaType");
    assert_eq!(LANGUAGE_TAG, "zh-CN");
    assert!(TEXT_SERVICE_CLSID.starts_with('{'));
    assert!(TEXT_SERVICE_CLSID.ends_with('}'));
}

#[derive(Default)]
struct RecordingRegistrar {
    calls: Vec<String>,
}

impl ProfileRegistrar for RecordingRegistrar {
    fn register_text_service(&mut self, clsid: &str) -> ProfileResult<()> {
        self.calls.push(format!("service:{clsid}"));
        Ok(())
    }

    fn register_language_profile(
        &mut self,
        clsid: &str,
        language_tag: &str,
        description: &str,
        icon_index: i32,
    ) -> ProfileResult<()> {
        self.calls.push(format!(
            "profile:{clsid}:{language_tag}:{description}:{icon_index}"
        ));
        Ok(())
    }

    fn enable_language_profile(&mut self, clsid: &str, language_tag: &str) -> ProfileResult<()> {
        self.calls.push(format!("enable:{clsid}:{language_tag}"));
        Ok(())
    }
}

#[test]
fn builds_novatype_profile() {
    let profile = TsfProfile::novatype();

    assert_eq!(profile.display_name, "NovaType");
    assert_eq!(profile.language_tag, "zh-CN");
    assert!(profile.clsid.starts_with('{'));
}

#[test]
fn registration_plan_has_expected_order() {
    let plan = TsfProfile::novatype().registration_plan();

    assert!(matches!(
        plan[0],
        ProfileRegistrationStep::RegisterTextService { .. }
    ));
    assert!(matches!(
        plan[1],
        ProfileRegistrationStep::RegisterLanguageProfile { .. }
    ));
    assert!(matches!(
        plan[2],
        ProfileRegistrationStep::EnableLanguageProfile { .. }
    ));
}

#[test]
fn executes_registration_plan_in_order() {
    let plan = TsfProfile::novatype().registration_plan();
    let mut registrar = RecordingRegistrar::default();

    execute_registration_plan(&mut registrar, &plan).expect("execute plan");

    assert_eq!(registrar.calls.len(), 3);
    assert!(registrar.calls[0].starts_with("service:"));
    assert!(registrar.calls[1].starts_with("profile:"));
    assert!(registrar.calls[2].starts_with("enable:"));
}

struct FailingRegistrar {
    calls: usize,
}

impl ProfileRegistrar for FailingRegistrar {
    fn register_text_service(&mut self, _clsid: &str) -> ProfileResult<()> {
        self.calls += 1;
        Ok(())
    }

    fn register_language_profile(
        &mut self,
        _clsid: &str,
        _language_tag: &str,
        _description: &str,
        _icon_index: i32,
    ) -> ProfileResult<()> {
        self.calls += 1;
        Err("denied".to_string())
    }

    fn enable_language_profile(&mut self, _clsid: &str, _language_tag: &str) -> ProfileResult<()> {
        self.calls += 1;
        Ok(())
    }
}

#[test]
fn registration_stops_at_first_error() {
    let plan = TsfProfile::novatype().registration_plan();
    let mut registrar = FailingRegistrar { calls: 0 };
    assert_eq!(
        execute_registration_plan(&mut registrar, &plan),
        Err("denied".to_string())
    );
    assert_eq!(registrar.calls, 2);
}

#[test]
fn registry_paths_are_user_scoped() {
    assert!(NOVATYPE_TSF_KEY.starts_with("Software\\NovaType"));
    assert!(CLASSES_KEY.starts_with("Software\\Classes"));
}

#[test]
fn step_recorder_names_values_in_order() {
    let plan = TsfProfile::novatype().registration_plan();
    let mut recorder = StepRecorder::new();
    execute_registration_plan(&mut recorder, &plan).expect("record");
    let records = recorder.records();
    assert_eq!(records.len(), 3);
    assert_eq!(records[0].0, "ProfileStep0");
    assert_eq!(records[0].1, format!("RegisterTextService:{TEXT_SERVICE_CLSID}"));
    assert_eq!(
        records[1].1,
        format!("RegisterLanguageProfile:{TEXT_SERVICE_CLSID}:zh-CN:NovaType Chinese Input Method:0")
    );
    assert_eq!(records[2].0, "ProfileStep2");
    assert_eq!(records[2].1, format!("EnableLanguageProfile:{TEXT_SERVICE_CLSID}:zh-CN"));
    assert_eq!(clsid_key_path(), format!("Software\\Classes\\CLSID\\{TEXT_SERVICE_CLSID}"));
}

#[test]
fn step_recorder_spells_negative_icon_index() {
    let mut recorder = StepRecorder::new();
    recorder
        .register_language_profile("{c}", "zh-CN", "d", -12)
        .expect("record");
    assert_eq!(recorder.records()[0].1, "RegisterLanguageProfile:{c}:zh-CN:d:-12");
}

#[test]
fn tracks_key_event_cookie() {
    let mut state = SinkState::default();

    assert!(!state.key_event_active());
    state.advise_key_event(42);
    assert!(state.key_event_active());
    assert_eq!(state.key_event_cookie(), Some(42));
    state.unadvise_key_event();
    assert!(!state.key_event_active());
}

#[test]
fn exported_can_unload_starts_true() {
    assert!(can_unload(0, 0));
    assert!(!can_unload(1, 0));
    assert!(!can_unload(0, 2));
}

#[test]
fn guids_for_test_differ_by_first_field() {
    assert_eq!(Guid::for_test(7), Guid::for_test(7));
    assert_ne!(Guid::for_test(7), Guid::for_test(8));
}

#[test]
fn exported_get_class_object_returns_factory() {
    let clsid = Guid::text_service_clsid();
    let iid = Guid::iid_iclass_factory();
    assert_eq!(get_class_object(Some(&clsid), Some(&iid), true), S_OK);
    assert_eq!(
        get_class_object(Some(&clsid), Some(&Guid::iid_iunknown()), true),
        S_OK
    );
}

#[test]
fn exported_get_class_object_rejects_unknown_guid() {
    let unknown = Guid::for_test(0xDEAD_BEEF);
    let iid = Guid::iid_iclass_factory();
    let hr = get_class_object(Some(&unknown), Some(&iid), true);
    assert_ne!(hr, S_OK);
    assert_eq!(hr, CLASS_E_CLASSNOTAVAILABLE);
}

#[test]
fn class_object_requests_check_pointers_and_interface() {
    let clsid = Guid::text_service_clsid();
    let iid = Guid::iid_iclass_factory();
    assert_eq!(get_class_object(None, Some(&iid), true), E_POINTER);
    assert_eq!(get_class_object(Some(&clsid), None, true), E_POINTER);
    assert_eq!(get_class_object(Some(&clsid), Some(&iid), false), E_POINTER);
    assert_eq!(
        get_class_object(Some(&clsid), Some(&Guid::iid_key_event_sink()), true),
        E_NOINTERFACE
    );
    assert_eq!(E_POINTER as u32, 0x8000_4003);
    assert_eq!(CLASS_E_CLASSNOTAVAILABLE as u32, 0x8004_0111);
}

#[test]
fn create_instance_answers_per_interface() {
    let sink = Guid::iid_key_event_sink();
    assert_eq!(create_instance(false, Some(&sink), true), S_OK);
    assert_eq!(
        create_instance(false, Some(&Guid::iid_text_input_processor()), true),
        S_OK
    );
    assert_eq!(
        create_instance(false, Some(&Guid::iid_iclass_factory()), true),
        E_NOINTERFACE
    );
    assert_eq!(create_instance(true, Some(&sink), true), CLASS_E_NOAGGREGATION);
    assert_eq!(create_instance(false, None, true), E_POINTER);
    assert_eq!(create_instance(true, Some(&sink), false), E_POINTER);
    assert_eq!(CLASS_E_NOAGGREGATION as u32, 0x8004_0110);
    assert_eq!(E_NOINTERFACE as u32, 0x8000_4002);
}

#[test]
fn empty_registration_plan_succeeds_without_calls() {
    let mut registrar = FailingRegistrar { calls: 0 };
    assert_eq!(execute_registration_plan(&mut registrar, &[]), Ok(()));
    assert_eq!(registrar.calls, 0);
}
