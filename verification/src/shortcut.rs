use crate::tree::{LooseMap, Value, ValueView};
use vstd::prelude::*;

verus! {

/// One required child of a shortcut node, named so an error can say which
/// field was at fault.
#[derive(Clone, Copy, Debug, PartialEq, Eq, Structural)]
pub enum Field {
    AppName,
    Exe,
    StartDir,
    IsHidden,
    Icon,
    LaunchOptions,
    AllowDesktopConfig,
    OpenVr,
    ShortcutPath,
    LastPlayTime,
}

/// Why one element of the decoded tree could not be read as a shortcut
/// record. The element stays malformed; elements already projected are
/// unaffected.
#[derive(Clone, Copy, Debug, PartialEq, Eq, Structural)]
pub enum ProjectError {
    /// The node lacks the required child.
    Missing(Field),
    /// The required child is present but carries the wrong type of value.
    WrongType(Field),
    /// The element is not an object node at all.
    NotAnObject,
}

/// A user-defined application shortcut: the one fixed record shape the
/// projector understands. `last_play_time` counts seconds since the fixed
/// epoch of the wire format.
#[derive(Clone, Debug, PartialEq)]
pub struct Shortcut {
    pub id: u32,
    pub app_name: String,
    pub exe: String,
    pub start_dir: String,
    pub is_hidden: bool,
    pub icon: String,
    pub launch_options: String,
    pub allow_desktop_config: bool,
    pub shortcut_path: String,
    pub last_play_time: u64,
    pub open_vr: bool,
    pub tags: Vec<String>,
}

/// Mathematical model of a shortcut record.
pub struct ShortcutView {
    pub id: u32,
    pub app_name: Seq<char>,
    pub exe: Seq<char>,
    pub start_dir: Seq<char>,
    pub is_hidden: bool,
    pub icon: Seq<char>,
    pub launch_options: Seq<char>,
    pub allow_desktop_config: bool,
    pub shortcut_path: Seq<char>,
    pub last_play_time: u64,
    pub open_vr: bool,
    pub tags: Seq<Seq<char>>,
}

impl View for Shortcut {
    type V = ShortcutView;

    open spec fn view(&self) -> ShortcutView {
        ShortcutView {
            id: self.id,
            app_name: self.app_name@,
            exe: self.exe@,
            start_dir: self.start_dir@,
            is_hidden: self.is_hidden,
            icon: self.icon@,
            launch_options: self.launch_options@,
            allow_desktop_config: self.allow_desktop_config,
            shortcut_path: self.shortcut_path@,
            last_play_time: self.last_play_time,
            open_vr: self.open_vr,
            tags: self.tags.deep_view(),
        }
    }
}

/// The text value the node holds for key `k`, or the error charged to
/// field `f` when the key is absent or holds another type of value.
pub open spec fn spec_text_field(m: Map<Seq<char>, ValueView>, k: Seq<char>, f: Field) -> Result<
    Seq<char>,
    ProjectError,
> {
    if !m.contains_key(k) {
        Err(ProjectError::Missing(f))
    } else {
        match m[k] {
            ValueView::Text(s) => Ok(s),
            _ => Err(ProjectError::WrongType(f)),
        }
    }
}

/// The integer value the node holds for key `k`, or the error charged to
/// field `f` when the key is absent or holds another type of value.
pub open spec fn spec_int_field(m: Map<Seq<char>, ValueView>, k: Seq<char>, f: Field) -> Result<
    u32,
    ProjectError,
> {
    if !m.contains_key(k) {
        Err(ProjectError::Missing(f))
    } else {
        match m[k] {
            ValueView::Int(n) => Ok(n),
            _ => Err(ProjectError::WrongType(f)),
        }
    }
}

/// Read one tree node under the fixed shortcut schema.
///
/// Each required field must be present with the right type; the first
/// offender, in schema order, is reported. An integer-coded boolean field
/// is true exactly when the stored value is 1. `id` is the caller-assigned
/// position, never read from the node. `tags` is always empty: the tag
/// list sub-object of the wire format is not yet decoded.
pub open spec fn spec_project(m: Map<Seq<char>, ValueView>, id: u32) -> Result<
    ShortcutView,
    ProjectError,
> {
    match spec_text_field(m, "AppName"@, Field::AppName) {
        Err(e) => Err(e),
        Ok(app_name) => match spec_text_field(m, "exe"@, Field::Exe) {
            Err(e) => Err(e),
            Ok(exe) => match spec_text_field(m, "StartDir"@, Field::StartDir) {
                Err(e) => Err(e),
                Ok(start_dir) => match spec_int_field(m, "IsHidden"@, Field::IsHidden) {
                    Err(e) => Err(e),
                    Ok(is_hidden) => match spec_text_field(m, "icon"@, Field::Icon) {
                        Err(e) => Err(e),
                        Ok(icon) => match spec_text_field(
                            m,
                            "LaunchOptions"@,
                            Field::LaunchOptions,
                        ) {
                            Err(e) => Err(e),
                            Ok(launch_options) => match spec_int_field(
                                m,
                                "AllowDesktopConfig"@,
                                Field::AllowDesktopConfig,
                            ) {
                                Err(e) => Err(e),
                                Ok(allow_desktop_config) => match spec_int_field(
                                    m,
                                    "OpenVR"@,
                                    Field::OpenVr,
                                ) {
                                    Err(e) => Err(e),
                                    Ok(open_vr) => match spec_text_field(
                                        m,
                                        "ShortcutPath"@,
                                        Field::ShortcutPath,
                                    ) {
                                        Err(e) => Err(e),
                                        Ok(shortcut_path) => match spec_int_field(
                                            m,
                                            "LastPlayTime"@,
                                            Field::LastPlayTime,
                                        ) {
                                            Err(e) => Err(e),
                                            Ok(last_play_time) => Ok(
                                                ShortcutView {
                                                    id,
                                                    app_name,
                                                    exe,
                                                    start_dir,
                                                    is_hidden: is_hidden == 1,
                                                    icon,
                                                    launch_options,
                                                    allow_desktop_config: allow_desktop_config
                                                        == 1,
                                                    shortcut_path,
                                                    last_play_time: last_play_time as u64,
                                                    open_vr: open_vr == 1,
                                                    tags: Seq::empty(),
                                                },
                                            ),
                                        },
                                    },
                                },
                            },
                        },
                    },
                },
            },
        },
    }
}

/// Relies on `SystemTime::now` and `SystemTime::duration_since`: the
/// whole seconds from the Unix epoch to the current system time, or
/// nothing when the clock reads earlier than the epoch. Nothing more can
/// be promised of a clock reading.
#[verifier::external_body]
fn current_unix_seconds() -> (r: Option<u64>) {
    std::time::SystemTime::now().duration_since(std::time::UNIX_EPOCH).ok().map(|d| d.as_secs())
}

impl Default for Shortcut {
    /// A stand-in record: sample values for the name, executable and
    /// start directory, everything else empty or false except
    /// `allow_desktop_config`, and the current time as the last play time.
    fn default() -> (s: Shortcut)
        ensures
            s.id == 0,
            s.app_name@ == "Default Shortcut"@,
            s.exe@ == "calc.exe"@,
            s.start_dir@ == "/"@,
            !s.is_hidden,
            s.icon@ == Seq::<char>::empty(),
            s.launch_options@ == Seq::<char>::empty(),
            s.allow_desktop_config,
            s.shortcut_path@ == Seq::<char>::empty(),
            !s.open_vr,
            s.tags@ == Seq::<String>::empty(),
    {
        let last_play_time = match current_unix_seconds() {
            Some(n) => n,
            None => 0,
        };
        Shortcut {
            id: 0,
            app_name: "Default Shortcut".to_string(),
            exe: "calc.exe".to_string(),
            start_dir: "/".to_string(),
            is_hidden: false,
            icon: String::new(),
            launch_options: String::new(),
            allow_desktop_config: true,
            shortcut_path: String::new(),
            last_play_time,
            open_vr: false,
            tags: Vec::new(),
        }
    }
}

/// The text value the node holds for `key`, or the error charged to `f`.
fn text_field(node: &LooseMap, key: &str, f: Field) -> (r: Result<String, ProjectError>)
    ensures
        match spec_text_field(node@, key@, f) {
            Ok(s) => r is Ok && r->Ok_0@ == s,
            Err(e) => r is Err && r->Err_0 == e,
        },
{
    match node.get(&key.to_string()) {
        None => Err(ProjectError::Missing(f)),
        Some(v) => match v {
            Value::Text(s) => Ok(s.clone()),
            _ => Err(ProjectError::WrongType(f)),
        },
    }
}

/// The integer value the node holds for `key`, or the error charged to `f`.
fn int_field(node: &LooseMap, key: &str, f: Field) -> (r: Result<u32, ProjectError>)
    ensures
        match spec_int_field(node@, key@, f) {
            Ok(n) => r is Ok && r->Ok_0 == n,
            Err(e) => r is Err && r->Err_0 == e,
        },
{
    match node.get(&key.to_string()) {
        None => Err(ProjectError::Missing(f)),
        Some(v) => match v {
            Value::Int(n) => Ok(*n),
            _ => Err(ProjectError::WrongType(f)),
        },
    }
}

impl Shortcut {
    /// Build a record from its parts.
    pub fn new(
        id: u32,
        app_name: &str,
        exe: &str,
        start_dir: &str,
        is_hidden: bool,
        icon: String,
        launch_options: &str,
        allow_desktop_config: bool,
        shortcut_path: &str,
        last_play_time: u64,
        open_vr: bool,
        tags: Vec<String>,
    ) -> (s: Shortcut)
        ensures
            s.id == id,
            s.app_name@ == app_name@,
            s.exe@ == exe@,
            s.start_dir@ == start_dir@,
            s.is_hidden == is_hidden,
            s.icon@ == icon@,
            s.launch_options@ == launch_options@,
            s.allow_desktop_config == allow_desktop_config,
            s.shortcut_path@ == shortcut_path@,
            s.last_play_time == last_play_time,
            s.open_vr == open_vr,
            s.tags == tags,
    {
        Shortcut {
            id,
            app_name: app_name.to_string(),
            exe: exe.to_string(),
            start_dir: start_dir.to_string(),
            is_hidden,
            icon,
            launch_options: launch_options.to_string(),
            allow_desktop_config,
            shortcut_path: shortcut_path.to_string(),
            last_play_time,
            open_vr,
            tags,
        }
    }

    /// Read one tree node under the fixed shortcut schema, exactly as
    /// [`spec_project`] describes: every required field must be present
    /// with the right type, the first offender in schema order is
    /// reported, and `assigned_id` (the positional index, never a value
    /// from the node) becomes the record's `id`.
    pub fn project(node: &LooseMap, assigned_id: u32) -> (r: Result<Shortcut, ProjectError>)
        ensures
            match spec_project(node@, assigned_id) {
                Ok(sv) => r is Ok && r->Ok_0@ == sv,
                Err(e) => r is Err && r->Err_0 == e,
            },
    {
        let app_name = match text_field(node, "AppName", Field::AppName) {
            Ok(v) => v,
            Err(e) => { return Err(e) },
        };
        let exe = match text_field(node, "exe", Field::Exe) {
            Ok(v) => v,
            Err(e) => { return Err(e) },
        };
        let start_dir = match text_field(node, "StartDir", Field::StartDir) {
            Ok(v) => v,
            Err(e) => { return Err(e) },
        };
        let is_hidden = match int_field(node, "IsHidden", Field::IsHidden) {
            Ok(v) => v,
            Err(e) => { return Err(e) },
        };
        let icon = match text_field(node, "icon", Field::Icon) {
            Ok(v) => v,
            Err(e) => { return Err(e) },
        };
        let launch_options = match text_field(node, "LaunchOptions", Field::LaunchOptions) {
            Ok(v) => v,
            Err(e) => { return Err(e) },
        };
        let allow_desktop_config = match int_field(
            node,
            "AllowDesktopConfig",
            Field::AllowDesktopConfig,
        ) {
            Ok(v) => v,
            Err(e) => { return Err(e) },
        };
        let open_vr = match int_field(node, "OpenVR", Field::OpenVr) {
            Ok(v) => v,
            Err(e) => { return Err(e) },
        };
        let shortcut_path = match text_field(node, "ShortcutPath", Field::ShortcutPath) {
            Ok(v) => v,
            Err(e) => { return Err(e) },
        };
        let last_play_time = match int_field(node, "LastPlayTime", Field::LastPlayTime) {
            Ok(v) => v,
            Err(e) => { return Err(e) },
        };
        let record = Shortcut {
            id: assigned_id,
            app_name,
            exe,
            start_dir,
            is_hidden: is_hidden == 1,
            icon,
            launch_options,
            allow_desktop_config: allow_desktop_config == 1,
            shortcut_path,
            last_play_time: last_play_time as u64,
            open_vr: open_vr == 1,
            tags: Vec::new(),
        };
        proof {
            assert(record.tags.deep_view() =~= Seq::<Seq<char>>::empty());
        }
        Ok(record)
    }
}

} // verus!
