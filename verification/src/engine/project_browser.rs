//! The project browser: the tree of a project's files, with filtering,
//! icons, and what opening a file does.
use vstd::prelude::*;
use crate::text::{contains_text, lowercase_of, to_lowercase, chars_of, contains_chars};

verus! {

/// A file or directory of the tree.
#[derive(Debug)]
pub struct FileNode {
    pub name: String,
    pub path: String,
    pub is_directory: bool,
    pub children: Vec<FileNode>,
    pub expanded: bool,
    /// The size in bytes, for files.
    pub size: Option<u64>,
    /// The time of the last change, in seconds since the Unix epoch.
    pub modified: Option<u64>,
}

/// Whether a node, or one of its descendants, has a name that contains
/// `filter` (compared in lowercase); every node matches an empty filter.
pub open spec fn node_matches(node: FileNode, filter: Seq<char>) -> bool
    decreases node,
{
    ||| filter.len() == 0
    ||| contains_text(lowercase_of(node.name@), lowercase_of(filter))
    ||| any_node_matches(node.children@, filter)
}

/// Whether one of the nodes matches `filter`.
pub open spec fn any_node_matches(nodes: Seq<FileNode>, filter: Seq<char>) -> bool
    decreases nodes,
{
    if nodes.len() == 0 {
        false
    } else {
        any_node_matches(nodes.subrange(0, nodes.len() - 1), filter) || node_matches(nodes[nodes.len() - 1], filter)
    }
}

/// What opening a file does.
#[derive(Debug, Clone, Copy, PartialEq, Eq, Structural)]
pub enum FileAction {
    /// Open it in the script editor.
    ScriptEditor,
    /// Load it as a scene.
    SceneLoader,
    /// Open it in the text editor.
    TextEditor,
    /// Open it with the system's default application.
    SystemDefault,
}

/// The extension of the file a path names, as `Path::extension` gives it:
/// `None` when the file name has no `.` after its first character.
pub uninterp spec fn file_extension(path: Seq<char>) -> Option<Seq<char>>;

/// `Path::extension` of the path, as text: claimed to give
/// [`file_extension`] of the path, which depends on the path alone.
#[verifier::external_body]
fn path_extension(path: &str) -> (r: Option<String>)
    ensures
        match r {
            Some(e) => file_extension(path@) == Some(e@),
            None => file_extension(path@) is None,
        },
{
    std::path::Path::new(path).extension().and_then(|e| e.to_str()).map(|e| e.to_string())
}

/// Whether `e` is one of `names`.
pub open spec fn one_of(e: Seq<char>, names: Seq<Seq<char>>) -> bool {
    names.contains(e)
}

pub open spec fn script_extensions() -> Seq<Seq<char>> {
    seq!["matrix"@, "mtx"@]
}

pub open spec fn image_extensions() -> Seq<Seq<char>> {
    seq!["png"@, "jpg"@, "jpeg"@, "bmp"@, "tga"@]
}

/// What opening a file with the (lowercase) extension `e` does: scripts
/// go to the script editor, scenes to the scene loader, images to the
/// system, and everything else to the text editor.
pub open spec fn action_for(e: Seq<char>) -> FileAction {
    if one_of(e, script_extensions()) {
        FileAction::ScriptEditor
    } else if e == "scene"@ {
        FileAction::SceneLoader
    } else if one_of(e, image_extensions()) {
        FileAction::SystemDefault
    } else {
        FileAction::TextEditor
    }
}

/// The icons of the file kinds.
pub open spec fn icon_table() -> Seq<(Seq<Seq<char>>, Seq<char>)> {
    seq![
        (seq!["matrix"@, "mtx"@], "📜"@),
        (seq!["scene"@], "🎬"@),
        (seq!["prefab"@], "🧩"@),
        (seq!["material"@, "mat"@], "🎨"@),
        (seq!["texture"@, "tex"@, "png"@, "jpg"@, "jpeg"@, "bmp"@, "tga"@], "🖼️"@),
        (seq!["model"@, "obj"@, "fbx"@, "blend"@, "3ds"@], "🎯"@),
        (seq!["audio"@, "wav"@, "mp3"@, "ogg"@, "m4a"@], "🎵"@),
        (seq!["shader"@, "hlsl"@, "glsl"@, "vert"@, "frag"@], "✨"@),
        (seq!["config"@, "cfg"@, "ini"@, "json"@, "toml"@, "yaml"@, "yml"@], "⚙️"@),
        (seq!["txt"@, "md"@, "readme"@], "📄"@),
        (seq!["rs"@, "c"@, "cpp"@, "h"@, "hpp"@, "py"@, "js"@, "ts"@], "💻"@),
    ]
}

/// The icon of the first kind, from row `k` of the table on, whose
/// extensions hold `e`; the text icon when none does.
pub open spec fn icon_from(e: Seq<char>, k: int) -> Seq<char>
    decreases icon_table().len() - k,
{
    if k < 0 || k >= icon_table().len() {
        "📄"@
    } else if one_of(e, icon_table()[k].0) {
        icon_table()[k].1
    } else {
        icon_from(e, k + 1)
    }
}

/// The browser's state.
pub struct ProjectBrowser {
    pub current_directory: String,
    pub file_tree: Vec<FileNode>,
    pub selected_file: Option<String>,
    pub show_hidden_files: bool,
    pub file_filter: String,
    pub favorites: Vec<String>,
    pub project_path: Option<String>,
    pub show_create_dialog: bool,
    pub create_dialog_name: String,
    pub create_dialog_is_folder: bool,
}

/// Whether `e` is one of the texts of `names`.
fn is_one_of(e: &Vec<char>, names: &[&str]) -> (b: bool)
    ensures
        b == exists|k: int| 0 <= k < names@.len() && names@[k]@ == e@,
{
    for k in 0..names.len()
        invariant
            forall|m: int| 0 <= m < k ==> names@[m]@ != e@,
    {
        let cs = chars_of(names[k]);
        if crate::text::same_chars(cs.as_slice(), e.as_slice()) {
            return true;
        }
    }
    false
}

impl ProjectBrowser {
    /// Whether the node, or one of its descendants, matches the browser's
    /// filter.
    pub fn matches_filter(&self, node: &FileNode) -> (b: bool)
        ensures
            b == node_matches(*node, self.file_filter@),
        decreases node,
    {
        if chars_of(self.file_filter.as_str()).len() == 0 {
            return true;
        }
        let name = chars_of(to_lowercase(node.name.as_str()).as_str());
        let filter = chars_of(to_lowercase(self.file_filter.as_str()).as_str());
        if contains_chars(&name, &filter) {
            return true;
        }
        let ghost kids = node.children@;
        for i in 0..node.children.len()
            invariant
                kids == node.children@,
                self.file_filter@.len() > 0,
                !any_node_matches(kids.subrange(0, i as int), self.file_filter@),
        {
            assert(kids.subrange(0, i + 1).subrange(0, i as int) =~= kids.subrange(0, i as int));
            if self.matches_filter(&node.children[i]) {
                assert(any_node_matches(kids.subrange(0, i + 1), self.file_filter@));
                assert(kids.subrange(0, kids.len() as int) =~= kids);
                proof {
                    lemma_any_prefix(kids, (i + 1) as int, self.file_filter@);
                }
                return true;
            }
        }
        assert(kids.subrange(0, kids.len() as int) =~= kids);
        false
    }
}

/// A node matching in a prefix matches in the whole sequence.
proof fn lemma_any_prefix(nodes: Seq<FileNode>, k: int, filter: Seq<char>)
    requires
        0 <= k <= nodes.len(),
        any_node_matches(nodes.subrange(0, k), filter),
    ensures
        any_node_matches(nodes, filter),
    decreases nodes.len() - k,
{
    if k < nodes.len() {
        let s = nodes.subrange(0, k + 1);
        assert(s.subrange(0, s.len() - 1) =~= nodes.subrange(0, k));
        lemma_any_prefix(nodes, k + 1, filter);
    } else {
        assert(nodes.subrange(0, k) =~= nodes);
    }
}

/// The lowercase extension of a path, empty when it has none.
pub open spec fn lowercase_extension(path: Seq<char>) -> Seq<char> {
    match file_extension(path) {
        Some(e) => lowercase_of(e),
        None => lowercase_of(Seq::empty()),
    }
}

/// The unit a size is shown in: the number of times it can be divided by
/// 1024 while it stays at least 1024, at most 4 (`B`, `KB`, `MB`, `GB`,
/// `TB`).
pub open spec fn size_unit(size: nat, k: nat) -> nat
    decreases 4 - k,
{
    if k >= 4 || size < 1024 {
        k
    } else {
        size_unit(size / 1024, k + 1)
    }
}

/// Whether a directory scan skips an entry: hidden entries (their name
/// starts with `.`) and the build directories `target`, `node_modules` and
/// `__pycache__`.
pub open spec fn skipped_entry(name: Seq<char>) -> bool {
    ||| (name.len() > 0 && name[0] == '.')
    ||| name == "target"@
    ||| name == "node_modules"@
    ||| name == "__pycache__"@
}

impl ProjectBrowser {
    /// The icon of a file, by its extension in lowercase (see
    /// [`icon_from`]).
    pub fn get_file_icon(&self, filename: &str) -> (icon: &'static str)
        ensures
            icon@ == icon_from(lowercase_extension(filename@), 0),
    {
        let ext = match path_extension(filename) {
            Some(e) => e,
            None => String::new(),
        };
        let lower = chars_of(to_lowercase(ext.as_str()).as_str());
        let rows: [(&[&str], &'static str); 11] = [
            (&["matrix", "mtx"], "📜"),
            (&["scene"], "🎬"),
            (&["prefab"], "🧩"),
            (&["material", "mat"], "🎨"),
            (&["texture", "tex", "png", "jpg", "jpeg", "bmp", "tga"], "🖼️"),
            (&["model", "obj", "fbx", "blend", "3ds"], "🎯"),
            (&["audio", "wav", "mp3", "ogg", "m4a"], "🎵"),
            (&["shader", "hlsl", "glsl", "vert", "frag"], "✨"),
            (&["config", "cfg", "ini", "json", "toml", "yaml", "yml"], "⚙️"),
            (&["txt", "md", "readme"], "📄"),
            (&["rs", "c", "cpp", "h", "hpp", "py", "js", "ts"], "💻"),
        ];
        assert(lower@ == lowercase_extension(filename@));
        for k in 0..11usize
            invariant
                lower@ == lowercase_extension(filename@),
                icon_from(lower@, 0) == icon_from(lower@, k as int),
                rows@.len() == 11,
                forall|m: int| 0 <= m < 11 ==> (#[trigger] rows@[m]).1@ == icon_table()[m].1
                    && rows@[m].0@.len() == icon_table()[m].0.len()
                    && forall|j: int| 0 <= j < rows@[m].0@.len() ==> rows@[m].0@[j]@ == icon_table()[m].0[j],
        {
            if is_one_of(&lower, rows[k].0) {
                proof {
                    let j = choose|j: int| 0 <= j < rows@[k as int].0@.len() && rows@[k as int].0@[j]@ == lower@;
                    assert(icon_table()[k as int].0[j] == lower@);
                    assert(one_of(lower@, icon_table()[k as int].0));
                    assert(icon_from(lower@, k as int) == icon_table()[k as int].1);
                }
                let icon = rows[k].1;
                assert(rows@[k as int].1 == icon);
                assert(icon@ == icon_table()[k as int].1);
                return icon;
            }
            proof {
                assert forall|j: int| 0 <= j < icon_table()[k as int].0.len() implies icon_table()[k as int].0[j] != lower@ by {
                    assert(rows@[k as int].0@[j]@ == icon_table()[k as int].0[j]);
                }
            }
        }
        "📄"
    }
}

/// The text of a file node: its fields, with the children's texts.
pub struct SpecFileNode {
    pub name: Seq<char>,
    pub path: Seq<char>,
    pub is_directory: bool,
    pub children: Seq<SpecFileNode>,
    pub expanded: bool,
    pub size: Option<u64>,
    pub modified: Option<u64>,
}

pub open spec fn view_node(n: FileNode) -> SpecFileNode
    decreases n,
{
    SpecFileNode {
        name: n.name@,
        path: n.path@,
        is_directory: n.is_directory,
        children: view_nodes(n.children@),
        expanded: n.expanded,
        size: n.size,
        modified: n.modified,
    }
}

pub open spec fn view_nodes(ns: Seq<FileNode>) -> Seq<SpecFileNode>
    decreases ns,
{
    if ns.len() == 0 {
        Seq::empty()
    } else {
        view_nodes(ns.subrange(0, ns.len() - 1)).push(view_node(ns[ns.len() - 1]))
    }
}

/// A file of the demonstration tree.
pub open spec fn mock_file(name: Seq<char>, path: Seq<char>, size: u64, now: u64) -> SpecFileNode {
    SpecFileNode { name, path, is_directory: false, children: Seq::empty(), expanded: false, size: Some(size), modified: Some(now) }
}

/// A directory of the demonstration tree.
pub open spec fn mock_dir(name: Seq<char>, path: Seq<char>, children: Seq<SpecFileNode>, now: u64) -> SpecFileNode {
    SpecFileNode { name, path, is_directory: true, children, expanded: false, size: None, modified: Some(now) }
}

/// The demonstration tree shown when no project is open, every node
/// changed at `now`.
pub open spec fn mock_tree(now: u64) -> Seq<SpecFileNode> {
    seq![
        mock_dir("Scenes"@, "Scenes"@, seq![
            mock_file("MainScene.scene"@, "Scenes/MainScene.scene"@, 1024, now),
            mock_file("PhysicsDemo.scene"@, "Scenes/PhysicsDemo.scene"@, 2048, now),
        ], now),
        mock_dir("Scripts"@, "Scripts"@, seq![
            mock_file("player_controller.matrix"@, "Scripts/player_controller.matrix"@, 4096, now),
            mock_file("physics_demo.matrix"@, "Scripts/physics_demo.matrix"@, 3072, now),
        ], now),
        mock_dir("Assets"@, "Assets"@, seq![
            mock_dir("Textures"@, "Assets/Textures"@, Seq::empty(), now),
            mock_dir("Models"@, "Assets/Models"@, Seq::empty(), now),
            mock_dir("Audio"@, "Assets/Audio"@, Seq::empty(), now),
        ], now),
    ]
}

fn mock_file_node(name: &str, path: &str, size: u64, now: u64) -> (n: FileNode)
    ensures
        view_node(n) == mock_file(name@, path@, size, now),
{
    let n = FileNode {
        name: name.to_owned(),
        path: path.to_owned(),
        is_directory: false,
        children: Vec::new(),
        expanded: false,
        size: Some(size),
        modified: Some(now),
    };
    assert(view_nodes(n.children@) =~= Seq::<SpecFileNode>::empty());
    n
}

fn mock_dir_node(name: &str, path: &str, children: Vec<FileNode>, now: u64) -> (n: FileNode)
    ensures
        view_node(n) == mock_dir(name@, path@, view_nodes(children@), now),
{
    FileNode {
        name: name.to_owned(),
        path: path.to_owned(),
        is_directory: true,
        children,
        expanded: false,
        size: None,
        modified: Some(now),
    }
}

proof fn lemma_view_nodes_push(ns: Seq<FileNode>, n: FileNode)
    ensures
        view_nodes(ns.push(n)) == view_nodes(ns).push(view_node(n)),
{
    assert(ns.push(n).subrange(0, ns.len() as int) =~= ns);
}

fn push_node(nodes: &mut Vec<FileNode>, n: FileNode)
    ensures
        view_nodes(final(nodes)@) == view_nodes(old(nodes)@).push(view_node(n)),
{
    proof {
        lemma_view_nodes_push(nodes@, n);
    }
    nodes.push(n);
}

fn empty_nodes() -> (v: Vec<FileNode>)
    ensures
        view_nodes(v@) == Seq::<SpecFileNode>::empty(),
{
    let v: Vec<FileNode> = Vec::new();
    assert(view_nodes(v@) =~= Seq::<SpecFileNode>::empty());
    v
}

/// The current time in seconds since the Unix epoch, from the system
/// clock (`SystemTime::now`); nothing is claimed of it.
#[verifier::external_body]
fn current_unix_time() -> (t: u64) {
    std::time::SystemTime::now().duration_since(std::time::UNIX_EPOCH).map(|d| d.as_secs()).unwrap_or(0)
}

impl ProjectBrowser {
    /// Appends the demonstration tree, changed at `now`.
    pub fn add_mock_data(&self, nodes: &mut Vec<FileNode>, now: u64)
        ensures
            view_nodes(final(nodes)@) == view_nodes(old(nodes)@) + mock_tree(now),
    {
        let ghost start = view_nodes(nodes@);
        let mut scenes = empty_nodes();
        push_node(&mut scenes, mock_file_node("MainScene.scene", "Scenes/MainScene.scene", 1024, now));
        push_node(&mut scenes, mock_file_node("PhysicsDemo.scene", "Scenes/PhysicsDemo.scene", 2048, now));
        assert(view_nodes(scenes@) =~= mock_tree(now)[0].children);
        push_node(nodes, mock_dir_node("Scenes", "Scenes", scenes, now));
        let mut scripts = empty_nodes();
        push_node(&mut scripts, mock_file_node("player_controller.matrix", "Scripts/player_controller.matrix", 4096, now));
        push_node(&mut scripts, mock_file_node("physics_demo.matrix", "Scripts/physics_demo.matrix", 3072, now));
        assert(view_nodes(scripts@) =~= mock_tree(now)[1].children);
        push_node(nodes, mock_dir_node("Scripts", "Scripts", scripts, now));
        let mut assets = empty_nodes();
        push_node(&mut assets, mock_dir_node("Textures", "Assets/Textures", empty_nodes(), now));
        push_node(&mut assets, mock_dir_node("Models", "Assets/Models", empty_nodes(), now));
        push_node(&mut assets, mock_dir_node("Audio", "Assets/Audio", empty_nodes(), now));
        assert(view_nodes(assets@) =~= mock_tree(now)[2].children);
        push_node(nodes, mock_dir_node("Assets", "Assets", assets, now));
        assert(view_nodes(nodes@) =~= start + mock_tree(now));
    }

    /// A browser on the `Assets` directory, showing the demonstration tree
    /// as changed now.
    pub fn new() -> (b: ProjectBrowser)
        ensures
            b.current_directory@ == "Assets"@,
            exists|now: u64| view_nodes(b.file_tree@) == mock_tree(now),
            b.selected_file is None,
            !b.show_hidden_files,
            b.file_filter@ == Seq::<char>::empty(),
            b.favorites@.len() == 0,
            b.project_path is None,
            !b.show_create_dialog,
            b.create_dialog_name@ == Seq::<char>::empty(),
            !b.create_dialog_is_folder,
    {
        let now = current_unix_time();
        let mut b = ProjectBrowser {
            current_directory: "Assets".to_owned(),
            file_tree: Vec::new(),
            selected_file: None,
            show_hidden_files: false,
            file_filter: String::new(),
            favorites: Vec::new(),
            project_path: None,
            show_create_dialog: false,
            create_dialog_name: String::new(),
            create_dialog_is_folder: false,
        };
        b.load_mock_tree(now);
        b
    }

    /// Shows the demonstration tree, changed at `now`, as the file tree.
    pub fn load_mock_tree(&mut self, now: u64)
        ensures
            view_nodes(final(self).file_tree@) == mock_tree(now),
            final(self).current_directory@ == old(self).current_directory@,
            final(self).selected_file == old(self).selected_file,
            final(self).show_hidden_files == old(self).show_hidden_files,
            final(self).file_filter@ == old(self).file_filter@,
            final(self).favorites@ == old(self).favorites@,
            final(self).project_path == old(self).project_path,
            final(self).show_create_dialog == old(self).show_create_dialog,
            final(self).create_dialog_name@ == old(self).create_dialog_name@,
            final(self).create_dialog_is_folder == old(self).create_dialog_is_folder,
    {
        let mut nodes = empty_nodes();
        self.add_mock_data(&mut nodes, now);
        assert(Seq::<SpecFileNode>::empty() + mock_tree(now) =~= mock_tree(now));
        self.file_tree = nodes;
    }

    /// What opening a file does, by its extension in lowercase; nothing
    /// when it has no extension.
    pub fn file_action(&self, path: &str) -> (a: Option<FileAction>)
        ensures
            a == match file_extension(path@) {
                Some(e) => Some(action_for(lowercase_of(e))),
                None => None::<FileAction>,
            },
    {
        match path_extension(path) {
            None => None,
            Some(e) => {
                let lower = chars_of(to_lowercase(e.as_str()).as_str());
                if is_one_of(&lower, &["matrix", "mtx"]) {
                    Some(FileAction::ScriptEditor)
                } else if is_one_of(&lower, &["scene"]) {
                    Some(FileAction::SceneLoader)
                } else if is_one_of(&lower, &["png", "jpg", "jpeg", "bmp", "tga"]) {
                    Some(FileAction::SystemDefault)
                } else {
                    Some(FileAction::TextEditor)
                }
            },
        }
    }
}

/// The unit a file size is shown in (see [`size_unit`]).
pub fn file_size_unit(size: u64) -> (k: usize)
    ensures
        k == size_unit(size as nat, 0),
        k <= 4,
{
    let mut s = size;
    let mut k: usize = 0;
    while k < 4 && s >= 1024
        invariant
            k <= 4,
            size_unit(size as nat, 0) == size_unit(s as nat, k as nat),
        decreases 4 - k,
    {
        s = s / 1024;
        k = k + 1;
    }
    k
}

/// Whether a directory scan skips an entry of this name.
pub fn skips_entry(name: &str) -> (b: bool)
    ensures
        b == skipped_entry(name@),
{
    let cs = chars_of(name);
    if cs.len() > 0 && cs[0] == '.' {
        return true;
    }
    is_one_of(&cs, &["target", "node_modules", "__pycache__"])
}

// ---------------------------------------------------------------------
// Order of the nodes of a directory
// ---------------------------------------------------------------------

/// The lexicographic order of texts, character by character (which is the
/// order of their UTF-8 bytes).
pub open spec fn text_less(a: Seq<char>, b: Seq<char>) -> bool
    decreases a.len(),
{
    if a.len() == 0 {
        b.len() > 0
    } else if b.len() == 0 {
        false
    } else if a[0] != b[0] {
        (a[0] as u32) < (b[0] as u32)
    } else {
        text_less(a.drop_first(), b.drop_first())
    }
}

/// Whether node `a` is listed before node `b`: directories come before
/// files, and nodes of one kind come by their names in lowercase.
pub open spec fn goes_before(a: FileNode, b: FileNode) -> bool {
    ||| (a.is_directory && !b.is_directory)
    ||| (a.is_directory == b.is_directory && text_less(lowercase_of(a.name@), lowercase_of(b.name@)))
}

/// The first index from `k` on whose node `x` goes before, or the length.
pub open spec fn insert_position(s: Seq<FileNode>, x: FileNode, k: int) -> int
    decreases s.len() - k,
{
    if k < 0 || k >= s.len() {
        s.len() as int
    } else if goes_before(x, s[k]) {
        k
    } else {
        insert_position(s, x, k + 1)
    }
}

/// The nodes listed in order, nodes that neither goes before the other
/// keeping their order (a stable sort).
pub open spec fn sorted_nodes(s: Seq<FileNode>) -> Seq<FileNode>
    decreases s.len(),
{
    if s.len() == 0 {
        s
    } else {
        let t = sorted_nodes(s.drop_last());
        t.insert(insert_position(t, s.last(), 0), s.last())
    }
}

/// Whether `a` comes before `b` in lexicographic order.
fn chars_less(a: &Vec<char>, b: &Vec<char>) -> (r: bool)
    ensures
        r == text_less(a@, b@),
{
    let mut i: usize = 0;
    assert(a@.subrange(0, a@.len() as int) =~= a@);
    assert(b@.subrange(0, b@.len() as int) =~= b@);
    while i < a.len() && i < b.len()
        invariant
            i <= a@.len(),
            i <= b@.len(),
            text_less(a@, b@) == text_less(a@.subrange(i as int, a@.len() as int), b@.subrange(i as int, b@.len() as int)),
        decreases a.len() - i,
    {
        let ghost sa = a@.subrange(i as int, a@.len() as int);
        let ghost sb = b@.subrange(i as int, b@.len() as int);
        proof {
            assert(sa[0] == a@[i as int]);
            assert(sb[0] == b@[i as int]);
            assert(sa.drop_first() =~= a@.subrange(i + 1, a@.len() as int));
            assert(sb.drop_first() =~= b@.subrange(i + 1, b@.len() as int));
        }
        if a[i] != b[i] {
            return (a[i] as u32) < (b[i] as u32);
        }
        i = i + 1;
    }
    i == a.len() && i < b.len()
}

/// The lowercase characters of a node's name.
fn lowercase_name(n: &FileNode) -> (r: Vec<char>)
    ensures
        r@ == lowercase_of(n.name@),
{
    chars_of(to_lowercase(n.name.as_str()).as_str())
}

/// Where `x` goes among `out`.
fn find_insert_position(out: &Vec<FileNode>, x: &FileNode) -> (p: usize)
    ensures
        p as int == insert_position(out@, *x, 0),
{
    let xl = lowercase_name(x);
    let mut k: usize = 0;
    while k < out.len()
        invariant
            k <= out@.len(),
            xl@ == lowercase_of(x.name@),
            insert_position(out@, *x, 0) == insert_position(out@, *x, k as int),
        decreases out.len() - k,
    {
        let ol = lowercase_name(&out[k]);
        let before = (x.is_directory && !out[k].is_directory) || (x.is_directory == out[k].is_directory
            && chars_less(&xl, &ol));
        if before {
            return k;
        }
        k = k + 1;
    }
    k
}

/// Lists the nodes of a directory in order (see [`sorted_nodes`]).
pub fn sort_nodes(nodes: &mut Vec<FileNode>)
    ensures
        final(nodes)@ == sorted_nodes(old(nodes)@),
{
    let ghost orig = nodes@;
    let n = nodes.len();
    let mut out: Vec<FileNode> = Vec::new();
    proof {
        assert(orig.take(0) =~= Seq::<FileNode>::empty());
    }
    for i in 0..n
        invariant
            n == orig.len(),
            nodes@ == orig.subrange(i as int, n as int),
            out@ == sorted_nodes(orig.take(i as int)),
    {
        let x = nodes.remove(0);
        proof {
            assert(nodes@ =~= orig.subrange(i + 1, n as int));
            assert(orig.take(i + 1).drop_last() =~= orig.take(i as int));
            assert(orig.take(i + 1).last() == x);
        }
        let p = find_insert_position(&out, &x);
        proof {
            lemma_insert_position_bounds(out@, x, 0);
        }
        out.insert(p, x);
    }
    assert(orig.take(n as int) =~= orig);
    *nodes = out;
}

// ---------------------------------------------------------------------
// Laws of the order
// ---------------------------------------------------------------------

proof fn lemma_text_less_irreflexive(a: Seq<char>)
    ensures
        !text_less(a, a),
    decreases a.len(),
{
    if a.len() > 0 {
        lemma_text_less_irreflexive(a.drop_first());
    }
}

proof fn lemma_text_less_transitive(a: Seq<char>, b: Seq<char>, c: Seq<char>)
    requires
        text_less(a, b),
        text_less(b, c),
    ensures
        text_less(a, c),
    decreases a.len(),
{
    if a.len() > 0 && b.len() > 0 && c.len() > 0 && a[0] == b[0] && b[0] == c[0] {
        lemma_text_less_transitive(a.drop_first(), b.drop_first(), c.drop_first());
    }
}

proof fn lemma_goes_before_transitive(a: FileNode, b: FileNode, c: FileNode)
    requires
        goes_before(a, b),
        goes_before(b, c),
    ensures
        goes_before(a, c),
{
    if a.is_directory == b.is_directory && b.is_directory == c.is_directory {
        lemma_text_less_transitive(lowercase_of(a.name@), lowercase_of(b.name@), lowercase_of(c.name@));
    }
}

/// Whether no node of the list goes before a node listed earlier.
pub open spec fn in_order(s: Seq<FileNode>) -> bool {
    forall|i: int, j: int| 0 <= i < j < s.len() ==> !goes_before(#[trigger] s[j], #[trigger] s[i])
}

proof fn lemma_insert_position_bounds(s: Seq<FileNode>, x: FileNode, k: int)
    requires
        0 <= k <= s.len(),
    ensures
        k <= insert_position(s, x, k) <= s.len(),
        forall|i: int| k <= i < insert_position(s, x, k) ==> !goes_before(x, #[trigger] s[i]),
        insert_position(s, x, k) < s.len() ==> goes_before(x, s[insert_position(s, x, k)]),
    decreases s.len() - k,
{
    if k < s.len() && !goes_before(x, s[k]) {
        lemma_insert_position_bounds(s, x, k + 1);
    }
}

/// Sorting keeps the nodes: the same nodes come out, each as many times as
/// it went in.
pub proof fn law_sorted_nodes_keep_nodes(s: Seq<FileNode>)
    ensures
        sorted_nodes(s).to_multiset() == s.to_multiset(),
    decreases s.len(),
{
    if s.len() > 0 {
        let t = sorted_nodes(s.drop_last());
        law_sorted_nodes_keep_nodes(s.drop_last());
        let x = s.last();
        lemma_insert_position_bounds(t, x, 0);
        vstd::seq_lib::to_multiset_insert(t, insert_position(t, x, 0), x);
        vstd::seq_lib::to_multiset_build(s.drop_last(), x);
        assert(s.drop_last().push(x) =~= s);
    }
}

/// The nodes come out in order: no node is listed after a node it goes
/// before.
pub proof fn law_sorted_nodes_in_order(s: Seq<FileNode>)
    ensures
        in_order(sorted_nodes(s)),
        sorted_nodes(s).len() == s.len(),
    decreases s.len(),
{
    if s.len() > 0 {
        let t = sorted_nodes(s.drop_last());
        law_sorted_nodes_in_order(s.drop_last());
        let x = s.last();
        let p = insert_position(t, x, 0);
        lemma_insert_position_bounds(t, x, 0);
        let r = t.insert(p, x);
        assert(r == sorted_nodes(s));
        assert forall|i: int, j: int| 0 <= i < j < r.len() implies !goes_before(#[trigger] r[j], #[trigger] r[i]) by {
            if j < p {
                assert(r[i] == t[i] && r[j] == t[j]);
            } else if j == p {
                assert(r[i] == t[i]);
                assert(r[j] == x);
            } else if i < p {
                assert(r[i] == t[i] && r[j] == t[j - 1]);
                assert(!goes_before(t[j - 1], t[i]));
            } else if i == p {
                assert(r[i] == x && r[j] == t[j - 1]);
                if goes_before(t[j - 1], x) {
                    assert(goes_before(x, t[p]));
                    lemma_goes_before_transitive(t[j - 1], x, t[p]);
                    if j - 1 > p {
                        assert(!goes_before(t[j - 1], t[p]));
                    } else {
                        lemma_text_less_irreflexive(lowercase_of(t[p].name@));
                    }
                }
            } else {
                assert(r[i] == t[i - 1] && r[j] == t[j - 1]);
            }
        }
    }
}

} // verus!
