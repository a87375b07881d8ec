//! The server configuration sheet of a support archive, as plain data.

use vstd::prelude::*;

verus! {

#[derive(Debug)]
pub struct Document {
    pub text: Option<String>,
    pub head: Head,
    pub general: General,
    pub network_information: NetworkInformation,
    pub server_configuration_settings: ServerConfigurationSettings,
    pub certificate_information: CertificateInformation,
    pub components: Components,
    pub camera_recording_storage: CameraRecordingStorage,
    pub update_service: UpdateService,
    pub license_info: LicenseInfo,
    pub system_info: SystemInfo,
    pub onboarding: Onboarding,
    pub system_synchronization: SystemSynchronization,
    pub proxy_settings: ProxySettings,
    pub registry: Registry,
    pub modules: Modules,
    pub sra: Sra,
    pub feature_toggles: FeatureToggles,
    pub camera_metadata_settings: CameraMetadataSettings,
    pub camera_settings: CameraSettings,
    pub video_and_audio_settings: VideoAndAudioSettings,
    pub camera_recording_settings: CameraRecordingSettings,
    pub schedules: Schedules,
    pub views: Views,
    pub identities: Identities,
    pub privileges: Privileges,
    pub device_settings: DeviceSettings,
}

#[derive(Debug)]
pub struct Head {
    pub text: Option<String>,
    pub title: String,
    pub subtitle: String,
}

#[derive(Debug)]
pub struct General {
    pub text: Option<String>,
    pub setting: Vec<GeneralSetting>,
}

#[derive(Debug)]
pub struct GeneralSetting {
    pub text: Option<String>,
    pub name: String,
    pub value: String,
}

#[derive(Debug)]
pub struct NetworkInformation {
    pub text: Option<String>,
    pub setting: Vec<NetworkInformationSetting>,
}

#[derive(Debug)]
pub struct NetworkInformationSetting {
    pub text: Option<String>,
    pub name: String,
    pub value: String,
}

#[derive(Debug)]
pub struct ServerConfigurationSettings {
    pub text: Option<String>,
    pub setting: Vec<ServerConfigurationSettingsSetting>,
}

#[derive(Debug)]
pub struct ServerConfigurationSettingsSetting {
    pub text: Option<String>,
    pub name: String,
    pub value: String,
}

#[derive(Debug)]
pub struct CertificateInformation {
    pub text: Option<String>,
    pub setting: Vec<CertificateInformationSetting>,
}

#[derive(Debug)]
pub struct CertificateInformationSetting {
    pub text: Option<String>,
    pub name: String,
    pub values: CertificateInformationSettingValues,
}

#[derive(Debug)]
pub struct CertificateInformationSettingValues {
    pub text: Option<String>,
    pub value: Vec<String>,
}

#[derive(Debug)]
pub struct Components {
    pub text: Option<String>,
    pub component: Vec<Component>,
}

#[derive(Debug)]
pub struct Component {
    pub text: Option<String>,
    pub content_document: Option<String>,
    pub name: String,
    pub plugin_id: String,
    pub version: String,
    pub status: String,
}

#[derive(Debug)]
pub struct CameraRecordingStorage {
    pub text: Option<String>,
    pub disc: Vec<Disc>,
}

#[derive(Debug)]
pub struct Disc {
    pub text: Option<String>,
    pub setting: Vec<DiscSetting>,
}

#[derive(Debug)]
pub struct DiscSetting {
    pub text: Option<String>,
    pub name: String,
    pub value: String,
}

#[derive(Debug)]
pub struct UpdateService {
    pub text: Option<String>,
    pub setting: Vec<UpdateServiceSetting>,
}

#[derive(Debug)]
pub struct UpdateServiceSetting {
    pub text: Option<String>,
    pub name: String,
    pub value: String,
}

#[derive(Debug)]
pub struct LicenseInfo {
    pub text: Option<String>,
    pub setting: Vec<LicenseInfoSetting>,
}

#[derive(Debug)]
pub struct LicenseInfoSetting {
    pub text: Option<String>,
    pub name: String,
    pub value: String,
}

#[derive(Debug)]
pub struct SystemInfo {
    pub text: Option<String>,
    pub setting: Vec<SystemInfoSetting>,
}

#[derive(Debug)]
pub struct SystemInfoSetting {
    pub text: Option<String>,
    pub name: String,
    pub value: String,
}

#[derive(Debug)]
pub struct Onboarding {
    pub text: Option<String>,
    pub setting: OnboardingSetting,
}

#[derive(Debug)]
pub struct OnboardingSetting {
    pub text: Option<String>,
    pub name: String,
    pub value: String,
}

#[derive(Debug)]
pub struct SystemSynchronization {
    pub text: Option<String>,
    pub setting: SystemSynchronizationSetting,
}

#[derive(Debug)]
pub struct SystemSynchronizationSetting {
    pub text: Option<String>,
    pub name: String,
    pub value: String,
}

#[derive(Debug)]
pub struct ProxySettings {
    pub text: Option<String>,
    pub setting: Vec<ProxySettingsSetting>,
}

#[derive(Debug)]
pub struct ProxySettingsSetting {
    pub text: Option<String>,
    pub name: String,
    pub value: String,
}

#[derive(Debug)]
pub struct Registry {
    pub text: Option<String>,
    pub setting: RegistrySetting,
}

#[derive(Debug)]
pub struct RegistrySetting {
    pub text: Option<String>,
    pub name: String,
    pub value: String,
}

#[derive(Debug)]
pub struct Modules {
    pub text: Option<String>,
    pub setting: Vec<ModulesSetting>,
}

#[derive(Debug)]
pub struct ModulesSetting {
    pub text: Option<String>,
    pub name: String,
    pub value: String,
}

#[derive(Debug)]
pub struct Sra {
    pub text: Option<String>,
    pub setting: SraSetting,
}

#[derive(Debug)]
pub struct SraSetting {
    pub text: Option<String>,
    pub name: String,
    pub value: String,
}

#[derive(Debug)]
pub struct FeatureToggles {
    pub text: Option<String>,
    pub setting: FeatureTogglesSetting,
}

#[derive(Debug)]
pub struct FeatureTogglesSetting {
    pub text: Option<String>,
    pub name: String,
    pub value: String,
}

#[derive(Debug)]
pub struct CameraMetadataSettings {
    pub text: Option<String>,
    pub camera_metadata_setting: Vec<CameraMetadataSetting>,
}

#[derive(Debug)]
pub struct CameraMetadataSetting {
    pub text: Option<String>,
    pub setting: Vec<CameraMetadataSettingSetting>,
}

#[derive(Debug)]
pub struct CameraMetadataSettingSetting {
    pub text: Option<String>,
    pub value: Option<String>,
    pub name: String,
    pub values: Option<CameraMetadataSettingSettingValues>,
}

#[derive(Debug)]
pub struct CameraMetadataSettingSettingValues {
    pub text: Option<String>,
    pub value: Vec<String>,
}

#[derive(Debug)]
pub struct CameraSettings {
    pub text: Option<String>,
    pub camera_setting: Vec<CameraSetting>,
}

#[derive(Debug)]
pub struct CameraSetting {
    pub text: Option<String>,
    pub setting: Vec<CameraSettingSetting>,
}

#[derive(Debug)]
pub struct CameraSettingSetting {
    pub text: Option<String>,
    pub name: String,
    pub value: String,
}

#[derive(Debug)]
pub struct VideoAndAudioSettings {
    pub text: Option<String>,
    pub video_and_audio_setting: Vec<VideoAndAudioSetting>,
}

#[derive(Debug)]
pub struct VideoAndAudioSetting {
    pub text: Option<String>,
    pub setting: Vec<VideoAndAudioSettingSetting>,
}

#[derive(Debug)]
pub struct VideoAndAudioSettingSetting {
    pub text: Option<String>,
    pub values: Option<VideoAndAudioSettingSettingValues>,
    pub name: String,
    pub value: Option<String>,
}

#[derive(Debug)]
pub struct VideoAndAudioSettingSettingValues {
    pub text: Option<String>,
    pub value: Vec<String>,
}

#[derive(Debug)]
pub struct CameraRecordingSettings {
    pub text: Option<String>,
    pub camera_recording_setting: Vec<CameraRecordingSetting>,
}

#[derive(Debug)]
pub struct CameraRecordingSetting {
    pub text: Option<String>,
    pub setting: Vec<CameraRecordingSettingSetting>,
}

#[derive(Debug)]
pub struct CameraRecordingSettingSetting {
    pub text: Option<String>,
    pub values: Option<CameraRecordingSettingSettingValues>,
    pub name: String,
    pub value: Option<String>,
}

#[derive(Debug)]
pub struct CameraRecordingSettingSettingValues {
    pub text: Option<String>,
    pub value: String,
}

#[derive(Debug)]
pub struct Rules {
    pub text: Option<String>,
    pub rule: Vec<Rule>,
}

#[derive(Debug)]
pub struct Rule {
    pub text: Option<String>,
    pub setting: Vec<RuleSetting>,
}

#[derive(Debug)]
pub struct RuleSetting {
    pub text: Option<String>,
    pub values: Option<RuleSettingValues>,
    pub name: String,
    pub value: Option<String>,
}

#[derive(Debug)]
pub struct RuleSettingValues {
    pub text: Option<String>,
    pub value: Vec<String>,
}

#[derive(Debug)]
pub struct Schedules {
    pub text: Option<String>,
    pub schedule: Vec<Schedule>,
}

#[derive(Debug)]
pub struct Schedule {
    pub text: Option<String>,
    pub setting: Vec<ScheduleSetting>,
}

#[derive(Debug)]
pub struct ScheduleSetting {
    pub text: Option<String>,
    pub value: Option<String>,
    pub name: String,
    pub values: Option<ScheduleSettingValues>,
}

#[derive(Debug)]
pub struct ScheduleSettingValues {
    pub text: Option<String>,
    pub value: Vec<String>,
}

#[derive(Debug)]
pub struct Views {
    pub text: Option<String>,
    pub view: Vec<View>,
}

#[derive(Debug)]
pub struct View {
    pub text: Option<String>,
    pub setting: Vec<ViewSetting>,
}

#[derive(Debug)]
pub struct ViewSetting {
    pub text: Option<String>,
    pub name: String,
    pub value: String,
}

#[derive(Debug)]
pub struct Identities {
    pub text: Option<String>,
    pub identity: Vec<Identity>,
}

#[derive(Debug)]
pub struct Identity {
    pub text: Option<String>,
    pub setting: Vec<IdentitySetting>,
}

#[derive(Debug)]
pub struct IdentitySetting {
    pub text: Option<String>,
    pub name: String,
    pub value: String,
}

#[derive(Debug)]
pub struct Privileges {}

#[derive(Debug)]
pub struct DeviceSettings {
    pub text: Option<String>,
    pub device_setting: DeviceSetting,
}

#[derive(Debug)]
pub struct DeviceSetting {
    pub text: Option<String>,
    pub setting: Vec<DeviceSettingSetting>,
}

#[derive(Debug)]
pub struct DeviceSettingSetting {
    pub text: Option<String>,
    pub name: String,
    pub value: String,
}

} // verus!
