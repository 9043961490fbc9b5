//! The settings that drive devices and the window.

use vstd::prelude::*;
use crate::device::{Capabilities, DeviceKind, DeviceModelInfo, DeviceModelInfoView};
use crate::table::Table;
use crate::value::Value;

verus! {

/// The thumb-wheel sensitivity at which the wheel scrolls as fast as it turns.
pub const DEFAULT_THUMBWHEEL_SENSITIVITY: i32 = 14;

/// The lowest thumb-wheel sensitivity.
pub const MIN_THUMBWHEEL_SENSITIVITY: i32 = 1;

/// The highest thumb-wheel sensitivity.
pub const MAX_THUMBWHEEL_SENSITIVITY: i32 = 100;

/// The lowest auto-disengage threshold that does not free-spin on everyday
/// scrolling.
pub const SMARTSHIFT_MIN_AUTO_DISENGAGE: u8 = 8;

/// The auto-disengage threshold of a device that was never configured.
pub const SMARTSHIFT_AUTO_DISENGAGE_DEFAULT: u8 = 16;

/// The auto-disengage value that keeps the ratchet engaged for good.
pub const AUTO_DISENGAGE_PERMANENT: u8 = 0xff;

/// The resolution of a wheel that supports two.
#[derive(Clone, Copy, Debug, PartialEq, Eq, Structural)]
pub enum ScrollResolution {
    Low,
    High,
}

impl DeepView for ScrollResolution {
    type V = ScrollResolution;

    open spec fn deep_view(&self) -> ScrollResolution {
        *self
    }
}

impl Value for ScrollResolution {
    fn same(&self, other: &Self) -> (r: bool) {
        *self == *other
    }

    fn copy(&self) -> (r: Self) {
        *self
    }
}

/// How the wheel turns.
#[derive(Clone, Copy, Debug, PartialEq, Eq, Structural)]
pub enum SmartShiftMode {
    Free,
    Ratchet,
}

impl DeepView for SmartShiftMode {
    type V = SmartShiftMode;

    open spec fn deep_view(&self) -> SmartShiftMode {
        *self
    }
}

impl Value for SmartShiftMode {
    fn same(&self, other: &Self) -> (r: bool) {
        *self == *other
    }

    fn copy(&self) -> (r: Self) {
        *self
    }
}

/// A SmartShift configuration, as it is stored and as a device holds it.
#[derive(Clone, Copy, Debug, PartialEq, Eq, Structural)]
pub struct SmartShift {
    pub mode: SmartShiftMode,
    /// The speed in quarter turns per second at which the ratchet lets go.
    pub auto_disengage: u8,
    pub tunable_torque: u8,
}

impl DeepView for SmartShift {
    type V = SmartShift;

    open spec fn deep_view(&self) -> SmartShift {
        *self
    }
}

impl Value for SmartShift {
    fn same(&self, other: &Self) -> (r: bool) {
        *self == *other
    }

    fn copy(&self) -> (r: Self) {
        *self
    }
}

/// The lighting of a keyboard.
#[derive(Clone, Copy, Debug, PartialEq, Eq, Structural)]
pub struct Lighting {
    pub enabled: bool,
    /// The colour as `0xRRGGBB`.
    pub color: u32,
    pub brightness: u8,
}

impl DeepView for Lighting {
    type V = Lighting;

    open spec fn deep_view(&self) -> Lighting {
        *self
    }
}

impl Value for Lighting {
    fn same(&self, other: &Self) -> (r: bool) {
        *self == *other
    }

    fn copy(&self) -> (r: Self) {
        *self
    }
}

/// The light or dark appearance of the window.
#[derive(Clone, Copy, Debug, PartialEq, Eq, Structural)]
pub enum Appearance {
    System,
    Light,
    Dark,
}

impl DeepView for Appearance {
    type V = Appearance;

    open spec fn deep_view(&self) -> Appearance {
        *self
    }
}

impl Value for Appearance {
    fn same(&self, other: &Self) -> (r: bool) {
        *self == *other
    }

    fn copy(&self) -> (r: Self) {
        *self
    }
}

/// The preferred source of device images, by its number.
#[derive(Clone, Copy, Debug, PartialEq, Eq, Structural)]
pub struct AssetSource {
    pub number: u8,
}

impl DeepView for AssetSource {
    type V = AssetSource;

    open spec fn deep_view(&self) -> AssetSource {
        *self
    }
}

impl Value for AssetSource {
    fn same(&self, other: &Self) -> (r: bool) {
        *self == *other
    }

    fn copy(&self) -> (r: Self) {
        *self
    }
}

/// What is remembered of a device that was once probed in full.
#[derive(Debug, PartialEq, Eq)]
pub struct DeviceIdentity {
    pub display_name: String,
    pub kind: DeviceKind,
    pub capabilities: Capabilities,
    pub model_info: Option<DeviceModelInfo>,
    pub codename: Option<String>,
}

/// The meaning of a [`DeviceIdentity`].
pub struct DeviceIdentityView {
    pub display_name: Seq<char>,
    pub kind: DeviceKind,
    pub capabilities: Capabilities,
    pub model_info: Option<DeviceModelInfoView>,
    pub codename: Option<Seq<char>>,
}

impl DeepView for DeviceIdentity {
    type V = DeviceIdentityView;

    open spec fn deep_view(&self) -> DeviceIdentityView {
        DeviceIdentityView {
            display_name: self.display_name.deep_view(),
            kind: self.kind.deep_view(),
            capabilities: self.capabilities.deep_view(),
            model_info: self.model_info.deep_view(),
            codename: self.codename.deep_view(),
        }
    }
}

impl Value for DeviceIdentity {
    fn same(&self, other: &Self) -> (r: bool) {
        self.display_name.same(&other.display_name)
            && self.kind.same(&other.kind)
            && self.capabilities.same(&other.capabilities)
            && self.model_info.same(&other.model_info)
            && self.codename.same(&other.codename)
    }

    fn copy(&self) -> (r: Self) {
        DeviceIdentity {
            display_name: self.display_name.copy(),
            kind: self.kind.copy(),
            capabilities: self.capabilities.copy(),
            model_info: self.model_info.copy(),
            codename: self.codename.copy(),
        }
    }
}

/// What is stored for one device.
#[derive(Debug, PartialEq, Eq)]
pub struct DeviceSettings {
    /// Whether the device is managed at all.
    pub enabled: bool,
    pub dpi: Option<u32>,
    pub dpi_presets: Vec<u32>,
    pub smartshift: Option<SmartShift>,
    pub lighting: Option<Lighting>,
    /// `None` leaves the resolution of the device alone.
    pub scroll_resolution: Option<ScrollResolution>,
    pub invert_scroll: bool,
    /// `None` follows the sensitivity set for all devices.
    pub thumbwheel_sensitivity: Option<i32>,
    pub identity: Option<DeviceIdentity>,
}

/// The meaning of a [`DeviceSettings`].
pub struct DeviceSettingsView {
    pub enabled: bool,
    pub dpi: Option<u32>,
    pub dpi_presets: Seq<u32>,
    pub smartshift: Option<SmartShift>,
    pub lighting: Option<Lighting>,
    pub scroll_resolution: Option<ScrollResolution>,
    pub invert_scroll: bool,
    pub thumbwheel_sensitivity: Option<i32>,
    pub identity: Option<DeviceIdentityView>,
}

impl DeepView for DeviceSettings {
    type V = DeviceSettingsView;

    open spec fn deep_view(&self) -> DeviceSettingsView {
        DeviceSettingsView {
            enabled: self.enabled.deep_view(),
            dpi: self.dpi.deep_view(),
            dpi_presets: self.dpi_presets.deep_view(),
            smartshift: self.smartshift.deep_view(),
            lighting: self.lighting.deep_view(),
            scroll_resolution: self.scroll_resolution.deep_view(),
            invert_scroll: self.invert_scroll.deep_view(),
            thumbwheel_sensitivity: self.thumbwheel_sensitivity.deep_view(),
            identity: self.identity.deep_view(),
        }
    }
}

impl Value for DeviceSettings {
    fn same(&self, other: &Self) -> (r: bool) {
        self.enabled.same(&other.enabled)
            && self.dpi.same(&other.dpi)
            && self.dpi_presets.same(&other.dpi_presets)
            && self.smartshift.same(&other.smartshift)
            && self.lighting.same(&other.lighting)
            && self.scroll_resolution.same(&other.scroll_resolution)
            && self.invert_scroll.same(&other.invert_scroll)
            && self.thumbwheel_sensitivity.same(&other.thumbwheel_sensitivity)
            && self.identity.same(&other.identity)
    }

    fn copy(&self) -> (r: Self) {
        DeviceSettings {
            enabled: self.enabled.copy(),
            dpi: self.dpi.copy(),
            dpi_presets: self.dpi_presets.copy(),
            smartshift: self.smartshift.copy(),
            lighting: self.lighting.copy(),
            scroll_resolution: self.scroll_resolution.copy(),
            invert_scroll: self.invert_scroll.copy(),
            thumbwheel_sensitivity: self.thumbwheel_sensitivity.copy(),
            identity: self.identity.copy(),
        }
    }
}

/// What is stored for the application as a whole.
#[derive(Debug, PartialEq, Eq)]
pub struct AppSettings {
    pub launch_at_login: bool,
    pub show_in_menu_bar: bool,
    pub check_for_updates: bool,
    pub auto_install_updates: bool,
    pub update_prompt_seen: bool,
    pub appearance: Appearance,
    pub theme_light: Option<String>,
    pub theme_dark: Option<String>,
    pub ui_radius: Option<u8>,
    pub thumbwheel_sensitivity: i32,
    pub auto_download_assets: bool,
    pub asset_source: AssetSource,
    pub language: Option<String>,
}

/// The meaning of a [`AppSettings`].
pub struct AppSettingsView {
    pub launch_at_login: bool,
    pub show_in_menu_bar: bool,
    pub check_for_updates: bool,
    pub auto_install_updates: bool,
    pub update_prompt_seen: bool,
    pub appearance: Appearance,
    pub theme_light: Option<Seq<char>>,
    pub theme_dark: Option<Seq<char>>,
    pub ui_radius: Option<u8>,
    pub thumbwheel_sensitivity: i32,
    pub auto_download_assets: bool,
    pub asset_source: AssetSource,
    pub language: Option<Seq<char>>,
}

impl DeepView for AppSettings {
    type V = AppSettingsView;

    open spec fn deep_view(&self) -> AppSettingsView {
        AppSettingsView {
            launch_at_login: self.launch_at_login.deep_view(),
            show_in_menu_bar: self.show_in_menu_bar.deep_view(),
            check_for_updates: self.check_for_updates.deep_view(),
            auto_install_updates: self.auto_install_updates.deep_view(),
            update_prompt_seen: self.update_prompt_seen.deep_view(),
            appearance: self.appearance.deep_view(),
            theme_light: self.theme_light.deep_view(),
            theme_dark: self.theme_dark.deep_view(),
            ui_radius: self.ui_radius.deep_view(),
            thumbwheel_sensitivity: self.thumbwheel_sensitivity.deep_view(),
            auto_download_assets: self.auto_download_assets.deep_view(),
            asset_source: self.asset_source.deep_view(),
            language: self.language.deep_view(),
        }
    }
}

impl Value for AppSettings {
    fn same(&self, other: &Self) -> (r: bool) {
        self.launch_at_login.same(&other.launch_at_login)
            && self.show_in_menu_bar.same(&other.show_in_menu_bar)
            && self.check_for_updates.same(&other.check_for_updates)
            && self.auto_install_updates.same(&other.auto_install_updates)
            && self.update_prompt_seen.same(&other.update_prompt_seen)
            && self.appearance.same(&other.appearance)
            && self.theme_light.same(&other.theme_light)
            && self.theme_dark.same(&other.theme_dark)
            && self.ui_radius.same(&other.ui_radius)
            && self.thumbwheel_sensitivity.same(&other.thumbwheel_sensitivity)
            && self.auto_download_assets.same(&other.auto_download_assets)
            && self.asset_source.same(&other.asset_source)
            && self.language.same(&other.language)
    }

    fn copy(&self) -> (r: Self) {
        AppSettings {
            launch_at_login: self.launch_at_login.copy(),
            show_in_menu_bar: self.show_in_menu_bar.copy(),
            check_for_updates: self.check_for_updates.copy(),
            auto_install_updates: self.auto_install_updates.copy(),
            update_prompt_seen: self.update_prompt_seen.copy(),
            appearance: self.appearance.copy(),
            theme_light: self.theme_light.copy(),
            theme_dark: self.theme_dark.copy(),
            ui_radius: self.ui_radius.copy(),
            thumbwheel_sensitivity: self.thumbwheel_sensitivity.copy(),
            auto_download_assets: self.auto_download_assets.copy(),
            asset_source: self.asset_source.copy(),
            language: self.language.copy(),
        }
    }
}

/// The stored settings.
pub struct Config {
    pub schema_version: u32,
    pub selected_device: Option<String>,
    pub devices: Table<String, DeviceSettings>,
    pub app_settings: AppSettings,
}

/// What is stored for a device that was never configured.
pub open spec fn unset_device() -> DeviceSettingsView {
    DeviceSettingsView {
        enabled: true,
        dpi: None,
        dpi_presets: Seq::empty(),
        smartshift: None,
        lighting: None,
        scroll_resolution: None,
        invert_scroll: false,
        thumbwheel_sensitivity: None,
        identity: None,
    }
}

impl DeviceSettings {
    /// The settings of a device that was never configured.
    pub fn unset() -> (r: Self)
        ensures
            r.deep_view() == unset_device(),
    {
        let r = DeviceSettings {
            enabled: true,
            dpi: None,
            dpi_presets: Vec::new(),
            smartshift: None,
            lighting: None,
            scroll_resolution: None,
            invert_scroll: false,
            thumbwheel_sensitivity: None,
            identity: None,
        };
        assert(r.dpi_presets.deep_view() =~= Seq::<u32>::empty());
        r
    }
}

impl Config {
    /// What holds for the device `key`: what is stored for it, or the settings
    /// of a device that was never configured.
    pub open spec fn device(&self, key: Seq<char>) -> DeviceSettingsView {
        if self.devices@.dom().contains(key) {
            self.devices@[key].deep_view()
        } else {
            unset_device()
        }
    }

    /// The sensitivity that holds for the thumb wheel of `key`.
    pub open spec fn sensitivity(&self, key: Seq<char>) -> i32 {
        match self.device(key).thumbwheel_sensitivity {
            Some(own) => own,
            None => self.app_settings.thumbwheel_sensitivity,
        }
    }

    /// Only what is stored for `key` differs from `before`, and it is `now`.
    pub open spec fn device_changed(&self, before: &Self, key: Seq<char>, now: DeviceSettingsView) -> bool {
        &&& self.schema_version == before.schema_version
        &&& self.selected_device == before.selected_device
        &&& self.app_settings == before.app_settings
        &&& self.devices@.dom() =~= before.devices@.dom().insert(key)
        &&& forall|k: Seq<char>| k != key ==> #[trigger] self.device(k) == before.device(k)
        &&& self.device(key) == now
    }

    /// The settings of `key`, for change in place; stored as unset ones first
    /// where nothing is stored.
    fn entry(&mut self, key: &String) -> (r: &mut DeviceSettings)
        ensures
            r.deep_view() == old(self).device(key@),
            final(self).device_changed(old(self), key@, final(r).deep_view()),
    {
        let ghost before = *self;
        if !self.devices.contains(key) {
            self.devices.insert(key.clone(), DeviceSettings::unset());
        }
        match self.devices.get_mut(key) {
            Some(r) => r,
            None => {
                proof {
                    assert(false);
                }
                unreached()
            },
        }
    }

    /// Settings with nothing stored for any device.
    pub fn new(schema_version: u32, app_settings: AppSettings) -> (r: Self)
        ensures
            r.schema_version == schema_version,
            r.app_settings == app_settings,
            r.selected_device is None,
            r.devices@ == Map::<Seq<char>, DeviceSettings>::empty(),
    {
        Config { schema_version, selected_device: None, devices: Table::new(), app_settings }
    }

    /// What is stored for `key`.
    fn settings(&self, key: &str) -> (r: Option<&DeviceSettings>)
        ensures
            match r {
                Some(own) => self.devices@.dom().contains(key@) && own.deep_view() == self.device(key@),
                None => !self.devices@.dom().contains(key@) && self.device(key@) == unset_device(),
            },
    {
        let key: String = key.to_owned();
        self.devices.get(&key)
    }

    /// Whether `key` is managed; a device never configured is.
    pub fn device_enabled(&self, key: &str) -> (r: bool)
        ensures
            r == self.device(key@).enabled,
    {
        match self.settings(key) {
            Some(own) => own.enabled,
            None => true,
        }
    }

    /// The stored sensor DPI.
    pub fn dpi(&self, key: &str) -> (r: Option<u32>)
        ensures
            r == self.device(key@).dpi,
    {
        match self.settings(key) {
            Some(own) => own.dpi,
            None => None,
        }
    }

    /// The stored DPI presets.
    pub fn dpi_presets(&self, key: &str) -> (r: Vec<u32>)
        ensures
            r@ == self.device(key@).dpi_presets,
    {
        match self.settings(key) {
            Some(own) => {
                let r: Vec<u32> = own.dpi_presets.copy();
                assert(r.deep_view() =~= r@);
                r
            },
            None => Vec::new(),
        }
    }

    /// The stored SmartShift configuration.
    pub fn smartshift(&self, key: &str) -> (r: Option<SmartShift>)
        ensures
            r == self.device(key@).smartshift,
    {
        match self.settings(key) {
            Some(own) => own.smartshift,
            None => None,
        }
    }

    /// The stored lighting.
    pub fn lighting(&self, key: &str) -> (r: Option<Lighting>)
        ensures
            r == self.device(key@).lighting,
    {
        match self.settings(key) {
            Some(own) => own.lighting,
            None => None,
        }
    }

    /// The stored wheel resolution.
    pub fn scroll_resolution(&self, key: &str) -> (r: Option<ScrollResolution>)
        ensures
            r == self.device(key@).scroll_resolution,
    {
        match self.settings(key) {
            Some(own) => own.scroll_resolution,
            None => None,
        }
    }

    /// Whether the wheel is inverted.
    pub fn invert_scroll(&self, key: &str) -> (r: bool)
        ensures
            r == self.device(key@).invert_scroll,
    {
        match self.settings(key) {
            Some(own) => own.invert_scroll,
            None => false,
        }
    }

    /// The thumb-wheel sensitivity stored for `key` itself.
    pub fn device_sensitivity(&self, key: &str) -> (r: Option<i32>)
        ensures
            r == self.device(key@).thumbwheel_sensitivity,
    {
        match self.settings(key) {
            Some(own) => own.thumbwheel_sensitivity,
            None => None,
        }
    }

    /// The thumb-wheel sensitivity that holds for `key`: its own, or the one for
    /// all devices.
    pub fn thumbwheel_sensitivity(&self, key: &str) -> (r: i32)
        ensures
            r == self.sensitivity(key@),
    {
        match self.device_sensitivity(key) {
            Some(own) => own,
            None => self.app_settings.thumbwheel_sensitivity,
        }
    }

    /// Whether `identity` is what is remembered of `key`.
    pub fn has_identity(&self, key: &str, identity: &DeviceIdentity) -> (r: bool)
        ensures
            r == (self.device(key@).identity == Some(identity.deep_view())),
    {
        match self.settings(key) {
            Some(own) => match &own.identity {
                Some(known) => known.same(identity),
                None => false,
            },
            None => false,
        }
    }

    /// Manages `key`, or leaves it alone.
    pub fn set_device_enabled(&mut self, key: &str, enabled: bool)
        ensures
            final(self).device_changed(
                old(self),
                key@,
                (DeviceSettingsView { enabled: enabled, ..old(self).device(key@) }),
            ),
    {
        let key: String = key.to_owned();
        let own = self.entry(&key);
        own.enabled = enabled;
    }

    /// Stores the sensor DPI.
    pub fn set_dpi(&mut self, key: &str, dpi: u32)
        ensures
            final(self).device_changed(
                old(self),
                key@,
                (DeviceSettingsView { dpi: Some(dpi), ..old(self).device(key@) }),
            ),
    {
        let key: String = key.to_owned();
        let own = self.entry(&key);
        own.dpi = Some(dpi);
    }

    /// Stores the DPI presets.
    pub fn set_dpi_presets(&mut self, key: &str, presets: Vec<u32>)
        ensures
            final(self).device_changed(
                old(self),
                key@,
                (DeviceSettingsView { dpi_presets: presets@, ..old(self).device(key@) }),
            ),
    {
        assert(presets.deep_view() =~= presets@);
        let key: String = key.to_owned();
        let own = self.entry(&key);
        own.dpi_presets = presets;
    }

    /// Stores the SmartShift configuration.
    pub fn set_smartshift(&mut self, key: &str, smartshift: SmartShift)
        ensures
            final(self).device_changed(
                old(self),
                key@,
                (DeviceSettingsView { smartshift: Some(smartshift), ..old(self).device(key@) }),
            ),
    {
        let key: String = key.to_owned();
        let own = self.entry(&key);
        own.smartshift = Some(smartshift);
    }

    /// Stores the lighting.
    pub fn set_lighting(&mut self, key: &str, lighting: Lighting)
        ensures
            final(self).device_changed(
                old(self),
                key@,
                (DeviceSettingsView { lighting: Some(lighting), ..old(self).device(key@) }),
            ),
    {
        let key: String = key.to_owned();
        let own = self.entry(&key);
        own.lighting = Some(lighting);
    }

    /// Stores the wheel resolution, or forgets it.
    pub fn set_scroll_resolution(&mut self, key: &str, resolution: Option<ScrollResolution>)
        ensures
            final(self).device_changed(
                old(self),
                key@,
                (DeviceSettingsView { scroll_resolution: resolution, ..old(self).device(key@) }),
            ),
    {
        let key: String = key.to_owned();
        let own = self.entry(&key);
        own.scroll_resolution = resolution;
    }

    /// Inverts the wheel, or does not.
    pub fn set_invert_scroll(&mut self, key: &str, invert: bool)
        ensures
            final(self).device_changed(
                old(self),
                key@,
                (DeviceSettingsView { invert_scroll: invert, ..old(self).device(key@) }),
            ),
    {
        let key: String = key.to_owned();
        let own = self.entry(&key);
        own.invert_scroll = invert;
    }

    /// Stores a sensitivity for `key` itself, or forgets it.
    pub fn set_device_thumbwheel_sensitivity(&mut self, key: &str, sensitivity: Option<i32>)
        ensures
            final(self).device_changed(
                old(self),
                key@,
                (DeviceSettingsView { thumbwheel_sensitivity: sensitivity, ..old(self).device(key@) }),
            ),
    {
        let key: String = key.to_owned();
        let own = self.entry(&key);
        own.thumbwheel_sensitivity = sensitivity;
    }

    /// Remembers what a device is.
    pub fn set_device_identity(&mut self, key: &str, identity: DeviceIdentity)
        ensures
            final(self).device_changed(
                old(self),
                key@,
                (DeviceSettingsView { identity: Some(identity.deep_view()), ..old(self).device(key@) }),
            ),
    {
        let key: String = key.to_owned();
        let own = self.entry(&key);
        own.identity = Some(identity);
    }
}

/// What is stored for a device holds for it, each setting for itself; a device
/// for which nothing is stored is managed, and nothing is set.
pub proof fn law_stored_settings_hold(config: Config, key: Seq<char>)
    ensures
        config.devices@.dom().contains(key) ==> {
            let (own, stored) = (config.device(key), config.devices@[key]);
            &&& own.enabled == stored.enabled
            &&& own.dpi == stored.dpi
            &&& own.dpi_presets == stored.dpi_presets@
            &&& own.smartshift == stored.smartshift
            &&& own.lighting == stored.lighting
            &&& own.scroll_resolution == stored.scroll_resolution
            &&& own.invert_scroll == stored.invert_scroll
            &&& own.thumbwheel_sensitivity == stored.thumbwheel_sensitivity
            &&& own.identity == stored.identity.deep_view()
        },
        !config.devices@.dom().contains(key) ==> {
            let own = config.device(key);
            &&& own.enabled && !own.invert_scroll
            &&& own.dpi is None && own.dpi_presets.len() == 0
            &&& own.smartshift is None && own.lighting is None && own.scroll_resolution is None
            &&& own.thumbwheel_sensitivity is None && own.identity is None
        },
{
    if config.devices@.dom().contains(key) {
        let stored = config.devices@[key];
        assert(stored.dpi_presets.deep_view() =~= stored.dpi_presets@);
    }
}

/// A device with a sensitivity of its own has that one, every other device has
/// the one set for all.
pub proof fn law_own_sensitivity_goes_first(config: Config, key: Seq<char>)
    ensures
        config.devices@.dom().contains(key) && config.devices@[key].thumbwheel_sensitivity is Some
            ==> config.sensitivity(key) == config.devices@[key].thumbwheel_sensitivity->0,
        !(config.devices@.dom().contains(key) && config.devices@[key].thumbwheel_sensitivity is Some)
            ==> config.sensitivity(key) == config.app_settings.thumbwheel_sensitivity,
{
}

/// A change for one device leaves the selection, the settings of the application
/// and what is stored for every other device as they were.
pub proof fn law_change_concerns_one_device(
    before: Config,
    after: Config,
    key: Seq<char>,
    now: DeviceSettingsView,
    other: Seq<char>,
)
    requires
        after.device_changed(&before, key, now),
    ensures
        after.device(key) == now,
        after.devices@.dom().contains(key),
        other != key ==> after.device(other) == before.device(other) && (after.devices@.dom().contains(other)
            <==> before.devices@.dom().contains(other)),
        after.selected_device == before.selected_device,
        after.app_settings == before.app_settings,
        after.schema_version == before.schema_version,
{
}

/// The meaning of the settings of the application holds what they hold.
pub proof fn law_app_settings_mean_what_they_hold(app: AppSettings)
    ensures
        ({
            let own = app.deep_view();
            &&& own.launch_at_login == app.launch_at_login
            &&& own.show_in_menu_bar == app.show_in_menu_bar
            &&& own.check_for_updates == app.check_for_updates
            &&& own.auto_install_updates == app.auto_install_updates
            &&& own.update_prompt_seen == app.update_prompt_seen
            &&& own.appearance == app.appearance
            &&& own.theme_light == app.theme_light.deep_view()
            &&& own.theme_dark == app.theme_dark.deep_view()
            &&& own.ui_radius == app.ui_radius
            &&& own.thumbwheel_sensitivity == app.thumbwheel_sensitivity
            &&& own.auto_download_assets == app.auto_download_assets
            &&& own.asset_source == app.asset_source
            &&& own.language == app.language.deep_view()
        }),
{
}

/// The meaning of an identity holds what it holds.
pub proof fn law_identity_means_what_it_holds(identity: DeviceIdentity)
    ensures
        ({
            let own = identity.deep_view();
            &&& own.display_name == identity.display_name@
            &&& own.kind == identity.kind
            &&& own.capabilities == identity.capabilities
            &&& own.model_info == identity.model_info.deep_view()
            &&& own.codename == identity.codename.deep_view()
        }),
{
}

/// A setting that holds nothing but plain values means itself.
pub proof fn law_plain_settings_mean_themselves(
    resolution: ScrollResolution,
    mode: SmartShiftMode,
    smartshift: SmartShift,
    lighting: Lighting,
    appearance: Appearance,
    source: AssetSource,
)
    ensures
        resolution.deep_view() == resolution,
        mode.deep_view() == mode,
        smartshift.deep_view() == smartshift,
        lighting.deep_view() == lighting,
        appearance.deep_view() == appearance,
        source.deep_view() == source,
{
}

/// Sensitivities go from 1 to 100, with 14 as the default. SmartShift goes by
/// thresholds from 8 on, with 16 as the default; 255 stands for a ratchet that
/// never lets go.
pub proof fn law_limits_of_the_settings()
    ensures
        MIN_THUMBWHEEL_SENSITIVITY == 1,
        DEFAULT_THUMBWHEEL_SENSITIVITY == 14,
        MAX_THUMBWHEEL_SENSITIVITY == 100,
        SMARTSHIFT_MIN_AUTO_DISENGAGE == 8,
        SMARTSHIFT_AUTO_DISENGAGE_DEFAULT == 16,
        AUTO_DISENGAGE_PERMANENT == 255,
{
}

} // verus!
