//! Hardware acceleration: which kind a machine offers, and what each kind asks
//! of the transcoder's command line.

use vstd::prelude::*;

use crate::text::{
    has_pair, pieces, push_pair, same_text, split, str_opt, texts, trim, trim_spec, Separator,
};

verus! {

#[derive(Clone, Copy, Debug, PartialEq, Eq, Structural)]
pub enum HardwareAccelerationType {
    Software,
    Nvenc,
    Qsv,
    Vaapi,
    VideoToolbox,
    V4l2m2m,
    Rkmpp,
}

/// What the machine has that an acceleration method needs.
#[derive(Clone, Copy, Debug)]
pub struct Devices {
    /// `/dev/nvidia0` exists.
    pub nvidia: bool,
    /// `/dev/dri/renderD128` exists.
    pub render_node: bool,
    /// `/dev/video0` exists.
    pub video: bool,
    /// `/dev/mpp_service` exists.
    pub mpp_service: bool,
    /// The operating system is macOS.
    pub macos: bool,
}

/// Whether a line of `output`, without the white space around it, is `name`.
pub open spec fn lists(output: Seq<char>, name: Seq<char>) -> bool {
    exists|i: int|
        0 <= i < pieces(output, Separator::At('\n')).len() && trim_spec(
            #[trigger] pieces(output, Separator::At('\n'))[i],
        ) == name
}

/// The acceleration to use, given the methods that the transcoder lists.
///
/// NVENC comes first, then QSV on an Intel render node, then VAAPI,
/// VideoToolbox, V4L2 and Rockchip.
pub open spec fn selected_hw_accel(
    output: Seq<char>,
    devices: Devices,
    vendor: Option<Seq<char>>,
) -> HardwareAccelerationType {
    if lists(output, "cuda"@) && devices.nvidia {
        HardwareAccelerationType::Nvenc
    } else if lists(output, "qsv"@) && devices.render_node && vendor == Some("0x8086"@) {
        HardwareAccelerationType::Qsv
    } else if lists(output, "vaapi"@) && devices.render_node {
        HardwareAccelerationType::Vaapi
    } else if lists(output, "videotoolbox"@) && devices.macos {
        HardwareAccelerationType::VideoToolbox
    } else if lists(output, "v4l2m2m"@) && devices.video {
        HardwareAccelerationType::V4l2m2m
    } else if lists(output, "rkmpp"@) && devices.mpp_service {
        HardwareAccelerationType::Rkmpp
    } else {
        HardwareAccelerationType::Software
    }
}

fn lists_method(lines: &Vec<String>, name: &str) -> (r: bool)
    ensures
        r == exists|i: int|
            0 <= i < texts(lines@).len() && trim_spec(#[trigger] texts(lines@)[i]) == name@,
{
    let mut i: usize = 0;
    while i < lines.len()
        invariant
            i <= lines.len(),
            forall|j: int| 0 <= j < i ==> trim_spec(#[trigger] texts(lines@)[j]) != name@,
        decreases lines.len() - i,
    {
        let line = trim(lines[i].as_str());
        if same_text(line.as_str(), name) {
            assert(trim_spec(texts(lines@)[i as int]) == name@);
            return true;
        }
        i = i + 1;
    }
    false
}

/// Picks the acceleration from the transcoder's list of methods, one a line.
pub fn select_hw_accel(
    hwaccels_output: &str,
    devices: &Devices,
    drm_vendor: Option<&str>,
) -> (r: HardwareAccelerationType)
    ensures
        r == selected_hw_accel(hwaccels_output@, *devices, str_opt(drm_vendor)),
{
    let lines = split(hwaccels_output, Separator::At('\n'));
    let is_intel = match drm_vendor {
        Some(vendor) => same_text(vendor, "0x8086"),
        None => false,
    };
    if lists_method(&lines, "cuda") && devices.nvidia {
        HardwareAccelerationType::Nvenc
    } else if lists_method(&lines, "qsv") && devices.render_node && is_intel {
        HardwareAccelerationType::Qsv
    } else if lists_method(&lines, "vaapi") && devices.render_node {
        HardwareAccelerationType::Vaapi
    } else if lists_method(&lines, "videotoolbox") && devices.macos {
        HardwareAccelerationType::VideoToolbox
    } else if lists_method(&lines, "v4l2m2m") && devices.video {
        HardwareAccelerationType::V4l2m2m
    } else if lists_method(&lines, "rkmpp") && devices.mpp_service {
        HardwareAccelerationType::Rkmpp
    } else {
        HardwareAccelerationType::Software
    }
}

/// The VAAPI driver named in the transcoder's report on a device: `iHD`,
/// `i965`, or nothing where the driver is another.
pub open spec fn vaapi_driver_spec(report: Seq<char>) -> Seq<char> {
    if crate::text::has(report, "Intel iHD driver"@) {
        "iHD"@
    } else if crate::text::has(report, "Intel i965 driver"@) {
        "i965"@
    } else {
        ""@
    }
}

pub fn vaapi_driver(report: &str) -> (driver: String)
    ensures
        driver@ == vaapi_driver_spec(report@),
{
    if crate::text::contains(report, "Intel iHD driver") {
        "iHD".to_owned()
    } else if crate::text::contains(report, "Intel i965 driver") {
        "i965".to_owned()
    } else {
        "".to_owned()
    }
}

/// The render node to ask about: the given one, or the first.
pub fn vaapi_device(device: &str) -> (r: String)
    ensures
        r@ == if device@.len() == 0 {
            "/dev/dri/renderD128"@
        } else {
            device@
        },
{
    if device.is_empty() {
        "/dev/dri/renderD128".to_owned()
    } else {
        device.to_owned()
    }
}

/// What one kind of acceleration asks of the command line.
pub trait Accelerator {
    /// Whether encoding is done in hardware.
    spec fn hardware(&self) -> bool;

    /// The kind of acceleration.
    spec fn kind(&self) -> HardwareAccelerationType;

    /// The encoder to use in place of a software encoder.
    spec fn encoder(&self, software: Seq<char>) -> Seq<char>;

    /// The arguments that go before the input.
    spec fn input_args(
        &self,
        source_codec: Option<Seq<char>>,
        hdr: bool,
        vpp_tonemap: bool,
    ) -> Seq<Seq<char>>;

    /// The filters that bring a frame to the encoder.
    spec fn suffix(&self, hdr: bool, vpp_tonemap: bool) -> Option<Seq<char>>;

    /// Whether the device can tone-map.
    spec fn vpp_tonemap(&self) -> bool;

    /// Whether tone-mapping in software is wanted even when it is not asked for.
    spec fn wants_sw_tonemap(&self) -> bool;

    fn is_hw(&self) -> (r: bool)
        ensures
            r == self.hardware(),
    ;

    fn as_type(&self) -> (r: HardwareAccelerationType)
        ensures
            r == self.kind(),
    ;

    fn encoder_name(&self, software: &str) -> (r: String)
        ensures
            r@ == self.encoder(software@),
    ;

    fn decode_input_args(
        &self,
        source_codec: Option<&str>,
        hdr: bool,
        vpp_tonemap: bool,
    ) -> (r: Vec<String>)
        ensures
            texts(r@) == self.input_args(str_opt(source_codec), hdr, vpp_tonemap),
    ;

    fn hw_filter_suffix(&self, hdr: bool, vpp_tonemap: bool) -> (r: Option<String>)
        ensures
            crate::text::text_opt(r) == self.suffix(hdr, vpp_tonemap),
    ;

    fn supports_vpp_tonemap(&self) -> (r: bool)
        ensures
            r == self.vpp_tonemap(),
    ;

    fn prefers_sw_tonemap(&self) -> (r: bool)
        ensures
            r == self.wants_sw_tonemap(),
    ;
}

/// Encoding in software.
#[derive(Clone, Copy, Debug)]
pub struct NoAccel;

/// NVIDIA's encoder.
#[derive(Clone, Copy, Debug)]
pub struct Nvenc;

/// VAAPI on a render node, with a driver name that may be empty.
#[derive(Clone, Debug)]
pub struct Vaapi {
    pub device: String,
    pub driver: String,
}

/// Intel Quick Sync, decoding through VAAPI on a render node.
#[derive(Clone, Debug)]
pub struct Qsv {
    pub vaapi_device: String,
    pub vaapi_driver: String,
}

/// Apple's VideoToolbox.
#[derive(Clone, Copy, Debug)]
pub struct VideoToolbox {
    /// The machine decodes AV1 in hardware.
    pub av1_hw_decode: bool,
}

impl Accelerator for NoAccel {
    open spec fn hardware(&self) -> bool {
        false
    }

    open spec fn kind(&self) -> HardwareAccelerationType {
        HardwareAccelerationType::Software
    }

    open spec fn encoder(&self, software: Seq<char>) -> Seq<char> {
        software
    }

    open spec fn input_args(
        &self,
        source_codec: Option<Seq<char>>,
        hdr: bool,
        vpp_tonemap: bool,
    ) -> Seq<Seq<char>> {
        seq![]
    }

    open spec fn suffix(&self, hdr: bool, vpp_tonemap: bool) -> Option<Seq<char>> {
        None
    }

    open spec fn vpp_tonemap(&self) -> bool {
        false
    }

    open spec fn wants_sw_tonemap(&self) -> bool {
        false
    }

    fn is_hw(&self) -> (r: bool) {
        false
    }

    fn as_type(&self) -> (r: HardwareAccelerationType) {
        HardwareAccelerationType::Software
    }

    fn encoder_name(&self, software: &str) -> (r: String) {
        software.to_owned()
    }

    fn decode_input_args(&self, source_codec: Option<&str>, hdr: bool, vpp_tonemap: bool) -> (r:
        Vec<String>) {
        let r: Vec<String> = Vec::new();
        assert(texts(r@) =~= seq![]);
        r
    }

    fn hw_filter_suffix(&self, hdr: bool, vpp_tonemap: bool) -> (r: Option<String>) {
        None
    }

    fn supports_vpp_tonemap(&self) -> (r: bool) {
        false
    }

    fn prefers_sw_tonemap(&self) -> (r: bool) {
        false
    }
}

/// The hardware encoder of the family `name` that stands for a software one.
pub open spec fn hw_encoder(software: Seq<char>, name: Seq<char>) -> Seq<char> {
    if software == "libx265"@ {
        "hevc_"@ + name
    } else {
        "h264_"@ + name
    }
}

fn hw_encoder_name(software: &str, name: &str) -> (r: String)
    ensures
        r@ == hw_encoder(software@, name@),
{
    if same_text(software, "libx265") {
        crate::text::concat2("hevc_", name)
    } else {
        crate::text::concat2("h264_", name)
    }
}

impl Accelerator for Nvenc {
    open spec fn hardware(&self) -> bool {
        true
    }

    open spec fn kind(&self) -> HardwareAccelerationType {
        HardwareAccelerationType::Nvenc
    }

    open spec fn encoder(&self, software: Seq<char>) -> Seq<char> {
        hw_encoder(software, "nvenc"@)
    }

    open spec fn input_args(
        &self,
        source_codec: Option<Seq<char>>,
        hdr: bool,
        vpp_tonemap: bool,
    ) -> Seq<Seq<char>> {
        seq!["-hwaccel"@, "cuda"@]
    }

    open spec fn suffix(&self, hdr: bool, vpp_tonemap: bool) -> Option<Seq<char>> {
        None
    }

    open spec fn vpp_tonemap(&self) -> bool {
        false
    }

    open spec fn wants_sw_tonemap(&self) -> bool {
        false
    }

    fn is_hw(&self) -> (r: bool) {
        true
    }

    fn as_type(&self) -> (r: HardwareAccelerationType) {
        HardwareAccelerationType::Nvenc
    }

    fn encoder_name(&self, software: &str) -> (r: String) {
        hw_encoder_name(software, "nvenc")
    }

    fn decode_input_args(&self, source_codec: Option<&str>, hdr: bool, vpp_tonemap: bool) -> (r:
        Vec<String>) {
        let mut r: Vec<String> = Vec::new();
        push_pair(&mut r, "-hwaccel", "cuda");
        assert(texts(r@) =~= seq!["-hwaccel"@, "cuda"@]);
        r
    }

    fn hw_filter_suffix(&self, hdr: bool, vpp_tonemap: bool) -> (r: Option<String>) {
        None
    }

    fn supports_vpp_tonemap(&self) -> (r: bool) {
        false
    }

    fn prefers_sw_tonemap(&self) -> (r: bool) {
        false
    }
}

/// The option that opens a VAAPI device under the name `va`.
pub open spec fn vaapi_init(device: Seq<char>, driver: Seq<char>) -> Seq<char> {
    if driver.len() == 0 {
        "vaapi=va:"@ + device
    } else {
        "vaapi=va:"@ + device + ",driver="@ + driver
    }
}

fn vaapi_init_text(device: &str, driver: &str) -> (r: String)
    ensures
        r@ == vaapi_init(device@, driver@),
{
    let mut r = crate::text::concat2("vaapi=va:", device);
    if !driver.is_empty() {
        r.append(",driver=");
        r.append(driver);
    }
    r
}

impl Accelerator for Vaapi {
    open spec fn hardware(&self) -> bool {
        true
    }

    open spec fn kind(&self) -> HardwareAccelerationType {
        HardwareAccelerationType::Vaapi
    }

    open spec fn encoder(&self, software: Seq<char>) -> Seq<char> {
        hw_encoder(software, "vaapi"@)
    }

    open spec fn input_args(
        &self,
        source_codec: Option<Seq<char>>,
        hdr: bool,
        vpp_tonemap: bool,
    ) -> Seq<Seq<char>> {
        seq![
            "-init_hw_device"@,
            vaapi_init(self.device@, self.driver@),
            "-filter_hw_device"@,
            "va"@,
        ]
    }

    open spec fn suffix(&self, hdr: bool, vpp_tonemap: bool) -> Option<Seq<char>> {
        Some("format=nv12,hwupload"@)
    }

    open spec fn vpp_tonemap(&self) -> bool {
        true
    }

    open spec fn wants_sw_tonemap(&self) -> bool {
        false
    }

    fn is_hw(&self) -> (r: bool) {
        true
    }

    fn as_type(&self) -> (r: HardwareAccelerationType) {
        HardwareAccelerationType::Vaapi
    }

    fn encoder_name(&self, software: &str) -> (r: String) {
        hw_encoder_name(software, "vaapi")
    }

    fn decode_input_args(&self, source_codec: Option<&str>, hdr: bool, vpp_tonemap: bool) -> (r:
        Vec<String>) {
        let mut r: Vec<String> = Vec::new();
        let init = vaapi_init_text(self.device.as_str(), self.driver.as_str());
        push_pair(&mut r, "-init_hw_device", init.as_str());
        push_pair(&mut r, "-filter_hw_device", "va");
        assert(texts(r@) =~= self.input_args(str_opt(source_codec), hdr, vpp_tonemap));
        r
    }

    fn hw_filter_suffix(&self, hdr: bool, vpp_tonemap: bool) -> (r: Option<String>) {
        Some("format=nv12,hwupload".to_owned())
    }

    fn supports_vpp_tonemap(&self) -> (r: bool) {
        true
    }

    fn prefers_sw_tonemap(&self) -> (r: bool) {
        false
    }
}

impl Accelerator for Qsv {
    open spec fn hardware(&self) -> bool {
        true
    }

    open spec fn kind(&self) -> HardwareAccelerationType {
        HardwareAccelerationType::Qsv
    }

    open spec fn encoder(&self, software: Seq<char>) -> Seq<char> {
        hw_encoder(software, "qsv"@)
    }

    /// Frames are decoded to VAAPI memory, but for an HDR source that is
    /// tone-mapped on the CPU.
    open spec fn input_args(
        &self,
        source_codec: Option<Seq<char>>,
        hdr: bool,
        vpp_tonemap: bool,
    ) -> Seq<Seq<char>> {
        seq![
            "-init_hw_device"@,
            vaapi_init(self.vaapi_device@, self.vaapi_driver@),
            "-init_hw_device"@,
            "qsv=qs@va"@,
            "-filter_hw_device"@,
            "qs"@,
        ] + if hdr && !vpp_tonemap {
            seq![]
        } else {
            seq!["-hwaccel"@, "vaapi"@, "-hwaccel_output_format"@, "vaapi"@]
        }
    }

    open spec fn suffix(&self, hdr: bool, vpp_tonemap: bool) -> Option<Seq<char>> {
        if vpp_tonemap {
            Some(
                "tonemap_vaapi=format=nv12:p=bt709:t=bt709:m=bt709:extra_hw_frames=32,hwmap=derive_device=qsv,format=qsv"@,
            )
        } else if hdr {
            Some("format=nv12"@)
        } else {
            Some("hwmap=derive_device=qsv,format=qsv"@)
        }
    }

    open spec fn vpp_tonemap(&self) -> bool {
        true
    }

    open spec fn wants_sw_tonemap(&self) -> bool {
        false
    }

    fn is_hw(&self) -> (r: bool) {
        true
    }

    fn as_type(&self) -> (r: HardwareAccelerationType) {
        HardwareAccelerationType::Qsv
    }

    fn encoder_name(&self, software: &str) -> (r: String) {
        hw_encoder_name(software, "qsv")
    }

    fn decode_input_args(&self, source_codec: Option<&str>, hdr: bool, vpp_tonemap: bool) -> (r:
        Vec<String>) {
        let mut r: Vec<String> = Vec::new();
        let init = vaapi_init_text(self.vaapi_device.as_str(), self.vaapi_driver.as_str());
        push_pair(&mut r, "-init_hw_device", init.as_str());
        push_pair(&mut r, "-init_hw_device", "qsv=qs@va");
        push_pair(&mut r, "-filter_hw_device", "qs");
        if !hdr || vpp_tonemap {
            push_pair(&mut r, "-hwaccel", "vaapi");
            push_pair(&mut r, "-hwaccel_output_format", "vaapi");
        }
        assert(texts(r@) =~= self.input_args(str_opt(source_codec), hdr, vpp_tonemap));
        r
    }

    fn hw_filter_suffix(&self, hdr: bool, vpp_tonemap: bool) -> (r: Option<String>) {
        if vpp_tonemap {
            Some(
                "tonemap_vaapi=format=nv12:p=bt709:t=bt709:m=bt709:extra_hw_frames=32,hwmap=derive_device=qsv,format=qsv".to_owned(),
            )
        } else if hdr {
            Some("format=nv12".to_owned())
        } else {
            Some("hwmap=derive_device=qsv,format=qsv".to_owned())
        }
    }

    fn supports_vpp_tonemap(&self) -> (r: bool) {
        true
    }

    fn prefers_sw_tonemap(&self) -> (r: bool) {
        false
    }
}

impl VideoToolbox {
    /// HDR frames stay in system memory for tone-mapping, and AV1 is decoded in
    /// software where the machine cannot do it in hardware.
    pub open spec fn software_decode(&self, codec: Option<Seq<char>>, hdr: bool) -> bool {
        hdr || (codec == Some("av1"@) && !self.av1_hw_decode)
    }

    pub fn requires_software_decode(&self, source_codec: Option<&str>, hdr: bool) -> (r: bool)
        ensures
            r == self.software_decode(str_opt(source_codec), hdr),
    {
        let av1 = match source_codec {
            Some(codec) => same_text(codec, "av1"),
            None => false,
        };
        hdr || (av1 && !self.av1_hw_decode)
    }
}

impl Accelerator for VideoToolbox {
    open spec fn hardware(&self) -> bool {
        true
    }

    open spec fn kind(&self) -> HardwareAccelerationType {
        HardwareAccelerationType::VideoToolbox
    }

    open spec fn encoder(&self, software: Seq<char>) -> Seq<char> {
        hw_encoder(software, "videotoolbox"@)
    }

    open spec fn input_args(
        &self,
        source_codec: Option<Seq<char>>,
        hdr: bool,
        vpp_tonemap: bool,
    ) -> Seq<Seq<char>> {
        if self.software_decode(source_codec, hdr) {
            seq![]
        } else {
            seq!["-hwaccel"@, "videotoolbox"@]
        }
    }

    open spec fn suffix(&self, hdr: bool, vpp_tonemap: bool) -> Option<Seq<char>> {
        None
    }

    open spec fn vpp_tonemap(&self) -> bool {
        false
    }

    open spec fn wants_sw_tonemap(&self) -> bool {
        true
    }

    fn is_hw(&self) -> (r: bool) {
        true
    }

    fn as_type(&self) -> (r: HardwareAccelerationType) {
        HardwareAccelerationType::VideoToolbox
    }

    fn encoder_name(&self, software: &str) -> (r: String) {
        hw_encoder_name(software, "videotoolbox")
    }

    fn decode_input_args(&self, source_codec: Option<&str>, hdr: bool, vpp_tonemap: bool) -> (r:
        Vec<String>) {
        let mut r: Vec<String> = Vec::new();
        if !self.requires_software_decode(source_codec, hdr) {
            push_pair(&mut r, "-hwaccel", "videotoolbox");
        }
        assert(texts(r@) =~= self.input_args(str_opt(source_codec), hdr, vpp_tonemap));
        r
    }

    fn hw_filter_suffix(&self, hdr: bool, vpp_tonemap: bool) -> (r: Option<String>) {
        None
    }

    fn supports_vpp_tonemap(&self) -> (r: bool) {
        false
    }

    fn prefers_sw_tonemap(&self) -> (r: bool) {
        true
    }
}

// ---------------------------------------------------------------------------
// Laws
// ---------------------------------------------------------------------------

/// What is selected is listed by the transcoder and has its device, and what comes
/// before it in the order of preference lacks one of the two; the software encoder is
/// used only where nothing else can be.
pub proof fn law_selected_hardware_is_there(
    output: Seq<char>,
    devices: Devices,
    vendor: Option<Seq<char>>,
)
    ensures
        ({
            let r = selected_hw_accel(output, devices, vendor);
            let nvenc = lists(output, "cuda"@) && devices.nvidia;
            let qsv = lists(output, "qsv"@) && devices.render_node && vendor == Some("0x8086"@);
            let vaapi = lists(output, "vaapi"@) && devices.render_node;
            let toolbox = lists(output, "videotoolbox"@) && devices.macos;
            let v4l2 = lists(output, "v4l2m2m"@) && devices.video;
            let rkmpp = lists(output, "rkmpp"@) && devices.mpp_service;
            &&& r is Nvenc <==> nvenc
            &&& r is Qsv <==> qsv && !nvenc
            &&& r is Vaapi <==> vaapi && !qsv && !nvenc
            &&& r is VideoToolbox <==> toolbox && !vaapi && !qsv && !nvenc
            &&& r is V4l2m2m <==> v4l2 && !toolbox && !vaapi && !qsv && !nvenc
            &&& r is Rkmpp <==> rkmpp && !v4l2 && !toolbox && !vaapi && !qsv && !nvenc
            &&& r is Software <==> !rkmpp && !v4l2 && !toolbox && !vaapi && !qsv && !nvenc
        }),
{
}

/// A method counts as listed where a line of the report is its name, with nothing
/// but white space around it.
pub proof fn law_methods_are_whole_lines(output: Seq<char>, name: Seq<char>, k: int)
    requires
        0 <= k < pieces(output, Separator::At('\n')).len(),
        trim_spec(pieces(output, Separator::At('\n'))[k]) == name,
    ensures
        lists(output, name),
{
}

/// Each kind of hardware has its own encoder, of the same codec as the one that it
/// stands for.
pub proof fn law_encoders_are_of_their_kind(vaapi: Vaapi, qsv: Qsv, toolbox: VideoToolbox)
    ensures
        NoAccel.encoder("libx264"@) == "libx264"@,
        Nvenc.encoder("libx264"@) == "h264_nvenc"@,
        Nvenc.encoder("libx265"@) == "hevc_nvenc"@,
        vaapi.encoder("libx264"@) == "h264_vaapi"@,
        vaapi.encoder("libx265"@) == "hevc_vaapi"@,
        qsv.encoder("libx264"@) == "h264_qsv"@,
        qsv.encoder("libx265"@) == "hevc_qsv"@,
        toolbox.encoder("libx264"@) == "h264_videotoolbox"@,
        toolbox.encoder("libx265"@) == "hevc_videotoolbox"@,
        !NoAccel.hardware() && Nvenc.hardware() && vaapi.hardware() && qsv.hardware()
            && toolbox.hardware(),
        NoAccel.kind() is Software && Nvenc.kind() is Nvenc && vaapi.kind() is Vaapi && qsv.kind()
            is Qsv && toolbox.kind() is VideoToolbox,
        vaapi.vpp_tonemap() && qsv.vpp_tonemap() && !Nvenc.vpp_tonemap() && !toolbox.vpp_tonemap()
            && !NoAccel.vpp_tonemap(),
        toolbox.wants_sw_tonemap() && !vaapi.wants_sw_tonemap() && !qsv.wants_sw_tonemap()
            && !Nvenc.wants_sw_tonemap() && !NoAccel.wants_sw_tonemap(),
{
    reveal_strlit("libx264");
    reveal_strlit("libx265");
    assert("libx264"@[6] != "libx265"@[6]);
    reveal_strlit("h264_");
    reveal_strlit("hevc_");
    reveal_strlit("nvenc");
    reveal_strlit("vaapi");
    reveal_strlit("qsv");
    reveal_strlit("videotoolbox");
    reveal_strlit("h264_nvenc");
    reveal_strlit("hevc_nvenc");
    reveal_strlit("h264_vaapi");
    reveal_strlit("hevc_vaapi");
    reveal_strlit("h264_qsv");
    reveal_strlit("hevc_qsv");
    reveal_strlit("h264_videotoolbox");
    reveal_strlit("hevc_videotoolbox");
    assert("h264_"@ + "nvenc"@ =~= "h264_nvenc"@);
    assert("hevc_"@ + "nvenc"@ =~= "hevc_nvenc"@);
    assert("h264_"@ + "vaapi"@ =~= "h264_vaapi"@);
    assert("hevc_"@ + "vaapi"@ =~= "hevc_vaapi"@);
    assert("h264_"@ + "qsv"@ =~= "h264_qsv"@);
    assert("hevc_"@ + "qsv"@ =~= "hevc_qsv"@);
    assert("h264_"@ + "videotoolbox"@ =~= "h264_videotoolbox"@);
    assert("hevc_"@ + "videotoolbox"@ =~= "hevc_videotoolbox"@);
}

/// The device that was configured is the one that is opened, with its driver where
/// one is known, and frames stay where the encoder can take them from: on the GPU but
/// for an HDR source that the CPU tone-maps.
pub proof fn law_devices_are_opened(
    vaapi: Vaapi,
    qsv: Qsv,
    toolbox: VideoToolbox,
    codec: Option<Seq<char>>,
    hdr: bool,
    vpp: bool,
)
    ensures
        ({
            let open = "vaapi=va:"@ + vaapi.device@;
            let named = open + ",driver="@ + vaapi.driver@;
            let args = vaapi.input_args(codec, hdr, vpp);
            &&& vaapi.driver@.len() == 0 ==> has_pair(args, "-init_hw_device"@, open)
            &&& vaapi.driver@.len() > 0 ==> has_pair(args, "-init_hw_device"@, named)
            &&& has_pair(args, "-filter_hw_device"@, "va"@)
            &&& args.len() == 4
        }),
        ({
            let open = "vaapi=va:"@ + qsv.vaapi_device@;
            let named = open + ",driver="@ + qsv.vaapi_driver@;
            let args = qsv.input_args(codec, hdr, vpp);
            &&& qsv.vaapi_driver@.len() == 0 ==> has_pair(args, "-init_hw_device"@, open)
            &&& qsv.vaapi_driver@.len() > 0 ==> has_pair(args, "-init_hw_device"@, named)
            &&& has_pair(args, "-init_hw_device"@, "qsv=qs@va"@)
            &&& has_pair(args, "-filter_hw_device"@, "qs"@)
            &&& !hdr || vpp ==> has_pair(args, "-hwaccel"@, "vaapi"@) && has_pair(
                args,
                "-hwaccel_output_format"@,
                "vaapi"@,
            )
            &&& hdr && !vpp ==> args.len() == 6
            &&& !hdr || vpp ==> args.len() == 10
        }),
        Nvenc.input_args(codec, hdr, vpp) == seq!["-hwaccel"@, "cuda"@],
        NoAccel.input_args(codec, hdr, vpp).len() == 0,
        hdr ==> toolbox.input_args(codec, hdr, vpp).len() == 0,
        codec == Some("av1"@) && !toolbox.av1_hw_decode ==> toolbox.input_args(
            codec,
            hdr,
            vpp,
        ).len() == 0,
        !hdr && (codec != Some("av1"@) || toolbox.av1_hw_decode) ==> toolbox.input_args(
            codec,
            hdr,
            vpp,
        ) == seq!["-hwaccel"@, "videotoolbox"@],
        vaapi.suffix(hdr, vpp) == Some("format=nv12,hwupload"@),
        !hdr && !vpp ==> qsv.suffix(hdr, vpp) == Some("hwmap=derive_device=qsv,format=qsv"@),
        hdr && !vpp ==> qsv.suffix(hdr, vpp) == Some("format=nv12"@),
        NoAccel.suffix(hdr, vpp) is None && Nvenc.suffix(hdr, vpp) is None && toolbox.suffix(
            hdr,
            vpp,
        ) is None,
{
    let args = vaapi.input_args(codec, hdr, vpp);
    assert(args[0] == "-init_hw_device"@ && args[1] == vaapi_init(vaapi.device@, vaapi.driver@));
    assert(args[2] == "-filter_hw_device"@ && args[3] == "va"@);
    let more = qsv.input_args(codec, hdr, vpp);
    assert(more[0] == "-init_hw_device"@ && more[1] == vaapi_init(
        qsv.vaapi_device@,
        qsv.vaapi_driver@,
    ));
    assert(more[2] == "-init_hw_device"@ && more[3] == "qsv=qs@va"@);
    assert(more[4] == "-filter_hw_device"@ && more[5] == "qs"@);
    if !hdr || vpp {
        assert(more[6] == "-hwaccel"@ && more[7] == "vaapi"@);
        assert(more[8] == "-hwaccel_output_format"@ && more[9] == "vaapi"@);
    }
}

/// The driver of a device is the one that its report names, if that is one of
/// Intel's.
pub proof fn law_driver_is_the_reported_one(report: Seq<char>)
    ensures
        crate::text::has(report, "Intel iHD driver"@) ==> vaapi_driver_spec(report) == "iHD"@,
        crate::text::has(report, "Intel i965 driver"@) && !crate::text::has(
            report,
            "Intel iHD driver"@,
        ) ==> vaapi_driver_spec(report) == "i965"@,
        !crate::text::has(report, "Intel i965 driver"@) && !crate::text::has(
            report,
            "Intel iHD driver"@,
        ) ==> vaapi_driver_spec(report).len() == 0,
{
    reveal_strlit("");
}

/// A picture reaches an encoder in the form that it takes: uploaded for VAAPI, mapped for
/// Quick Sync, with its colours mapped on the way where the device does that; the others
/// take it as it is.
pub proof fn law_pictures_reach_the_encoder(
    vaapi: Vaapi,
    qsv: Qsv,
    toolbox: VideoToolbox,
    hdr: bool,
    vpp: bool,
)
    ensures
        vaapi.suffix(hdr, vpp) == Some("format=nv12,hwupload"@),
        vpp ==> qsv.suffix(hdr, vpp) == Some(
            "tonemap_vaapi=format=nv12:p=bt709:t=bt709:m=bt709:extra_hw_frames=32,hwmap=derive_device=qsv,format=qsv"@,
        ),
        hdr && !vpp ==> qsv.suffix(hdr, vpp) == Some("format=nv12"@),
        !hdr && !vpp ==> qsv.suffix(hdr, vpp) == Some("hwmap=derive_device=qsv,format=qsv"@),
        NoAccel.suffix(hdr, vpp) is None,
        Nvenc.suffix(hdr, vpp) is None,
        toolbox.suffix(hdr, vpp) is None,
{
}

} // verus!
