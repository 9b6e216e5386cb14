//! Modes and kinds shared by the editor's panels.
use vstd::prelude::*;

verus! {

/// How keyframes of an animation are interpolated.
#[derive(Debug, Clone, Copy, PartialEq, Eq, Structural)]
pub enum InterpolationType {
    Linear,
    Bezier,
    Step,
    Constant,
}

/// How an animation repeats.
#[derive(Debug, Clone, Copy, PartialEq, Eq, Structural)]
pub enum LoopMode {
    Once,
    Loop,
    PingPong,
    ClampForever,
}

/// What the animation panel shows.
#[derive(Debug, Clone, Copy, PartialEq, Eq, Structural)]
pub enum AnimationViewMode {
    Dopesheet,
    Curves,
    Both,
}

/// The display the game view shows.
#[derive(Debug, Clone, Copy, PartialEq, Eq, Structural)]
pub enum DisplayMode {
    Display1,
    Display2,
    Custom,
}

impl DisplayMode {
    /// The label of the display.
    pub fn label(&self) -> (s: &'static str)
        ensures
            s@ == match *self {
                DisplayMode::Display1 => "Display 1"@,
                DisplayMode::Display2 => "Display 2"@,
                DisplayMode::Custom => "Custom"@,
            },
    {
        match self {
            DisplayMode::Display1 => "Display 1",
            DisplayMode::Display2 => "Display 2",
            DisplayMode::Custom => "Custom",
        }
    }
}

/// How the scene view's camera moves.
#[derive(Debug, Clone, Copy, PartialEq, Eq, Structural)]
pub enum CameraMode {
    Orbit,
    Flythrough,
    Pan,
}

/// The orientations the scene view snaps to.
#[derive(Debug, Clone, Copy, PartialEq, Eq, Structural)]
pub enum ViewOrientation {
    Front,
    Back,
    Left,
    Right,
    Top,
    Bottom,
    Perspective,
}

/// How the scene view draws objects.
#[derive(Debug, Clone, Copy, PartialEq, Eq, Structural)]
pub enum RenderStyle {
    Shaded,
    Wireframe,
    ShadedWireframe,
    Unlit,
}

/// The tabs of the docked editor layout.
#[derive(Debug, Clone, Copy, PartialEq, Eq, Structural)]
pub enum DockTab {
    Hierarchy,
    Inspector,
    Console,
    SceneView,
    MatrixScript,
}

impl DockTab {
    /// The title shown on the tab.
    pub fn title(&self) -> (s: &'static str)
        ensures
            s@ == match *self {
                DockTab::Hierarchy => "Hierarchy"@,
                DockTab::Inspector => "Inspector"@,
                DockTab::Console => "Console"@,
                DockTab::SceneView => "Scene"@,
                DockTab::MatrixScript => "Matrix Script"@,
            },
    {
        match self {
            DockTab::Hierarchy => "Hierarchy",
            DockTab::Inspector => "Inspector",
            DockTab::Console => "Console",
            DockTab::SceneView => "Scene",
            DockTab::MatrixScript => "Matrix Script",
        }
    }
}

/// The kinds of objects of a scene.
#[derive(Debug, Clone, Copy, PartialEq, Eq, Structural)]
pub enum GameObjectType {
    Cube,
    Sphere,
    Cylinder,
    Plane,
    Camera,
    Light,
    Empty,
}

impl GameObjectType {
    /// Whether a new object of this kind gets a rigid body: cubes, spheres
    /// and cylinders do.
    pub fn has_default_rigid_body(&self) -> (b: bool)
        ensures
            b == (*self == GameObjectType::Cube || *self == GameObjectType::Sphere || *self == GameObjectType::Cylinder),
    {
        match self {
            GameObjectType::Cube | GameObjectType::Sphere | GameObjectType::Cylinder => true,
            _ => false,
        }
    }
}

/// How the scene's gizmo manipulates the selection.
#[derive(Debug, Clone, Copy, PartialEq, Eq, Structural)]
pub enum GizmoMode {
    Translate,
    Rotate,
    Scale,
}

/// The script a new simple scripting panel holds.
pub open spec fn simple_script_template() -> Seq<char> {
    "-- Matrix Language Script\n-- Use @sim { ... } for 3D physics simulation\n-- Use @plot { ... } for plotting\n\nlet x = 5\nlet y = 10\nlet result = x + y\nprintln(\"Result: \", result)"@
}

/// A minimal scripting panel: the script text and whether help shows.
#[derive(Debug, Clone)]
pub struct SimpleScriptingPanel {
    pub script_content: String,
    pub show_help: bool,
}

impl SimpleScriptingPanel {
    pub fn new() -> (r: SimpleScriptingPanel)
        ensures
            r.script_content@ == simple_script_template(),
            !r.show_help,
    {
        SimpleScriptingPanel {
            script_content: "-- Matrix Language Script\n-- Use @sim { ... } for 3D physics simulation\n-- Use @plot { ... } for plotting\n\nlet x = 5\nlet y = 10\nlet result = x + y\nprintln(\"Result: \", result)".to_owned(),
            show_help: false,
        }
    }
}

} // verus!
