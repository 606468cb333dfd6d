//! The node tree at work, with a body that computes in `f32`.

use tgr::object::d2::press_hits;
use tgr::render::d2::{corner_of, Shape, CORNER_SEGMENTS, SEGMENTS};
use tgr::{Anchor, Body, CreateNode2d, DrawUpdate, Keep, Module, Node2d, Outline, Renders, Touch};

#[derive(Clone, Copy, PartialEq, Debug)]
struct V2 {
    x: f32,
    y: f32,
}

fn v2(x: f32, y: f32) -> V2 {
    V2 { x, y }
}

#[derive(Clone, Copy, PartialEq, Debug)]
enum Obj {
    Nothing,
    Rect(f32, f32, f32),
    Circle(f32),
    Texture(usize, f32, f32),
}

#[derive(Clone, Copy, PartialEq, Debug)]
struct Vertex {
    pos: [f32; 3],
    color: [f32; 4],
    uv: [f32; 2],
}

struct Stage {
    camera: V2,
    canvas_proj: V2,
    log: Vec<(usize, String, u64, Touch)>,
}

fn stage() -> Stage {
    Stage { camera: v2(0., 0.), canvas_proj: v2(640., 360.), log: Vec::new() }
}

#[derive(Clone, Copy, PartialEq, Debug)]
struct Seen {
    obj: Obj,
    position: V2,
    rotation: f32,
    scale: V2,
    offset: V2,
}

#[derive(Clone, Debug)]
struct Body2d {
    obj: Obj,
    parent_position: V2,
    global_position: V2,
    position: V2,
    rotation: f32,
    scale: V2,
    offset: V2,
    color: [f32; 4],
    cache_offset: V2,
    seen: Seen,
}

fn body(obj: Obj) -> Body2d {
    Body2d {
        obj,
        parent_position: v2(0., 0.),
        global_position: v2(0., 0.),
        position: v2(0., 0.),
        rotation: 0.,
        scale: v2(1., 1.),
        offset: v2(0., 0.),
        color: [1., 1., 1., 1.],
        cache_offset: v2(0., 0.),
        seen: Seen {
            obj,
            position: v2(0., 0.),
            rotation: 0.,
            scale: v2(0., 0.),
            offset: v2(0., 0.),
        },
    }
}

impl Body2d {
    fn at(mut self, x: f32, y: f32) -> Self {
        self.position = v2(x, y);
        self
    }

    fn turned(mut self, rotation: f32) -> Self {
        self.rotation = rotation;
        self
    }

    fn half_size(&self) -> V2 {
        match self.obj {
            Obj::Rect(w, h, _) => v2(w / 2., h / 2.),
            Obj::Circle(r) => v2(r, r),
            Obj::Texture(_, w, h) => v2(w / 2., h / 2.),
            Obj::Nothing => v2(0., 0.),
        }
    }

    fn half_extent(&self) -> V2 {
        match self.obj {
            Obj::Circle(r) => v2(r, r),
            _ => v2(self.half_size().x * self.scale.x, self.half_size().y * self.scale.y),
        }
    }

    fn shift(&self) -> V2 {
        let half = self.half_size();
        v2(self.offset.x * half.x * self.scale.x, self.offset.y * half.y * self.scale.y)
    }

    fn rotate(&self, x: f32, y: f32) -> [f32; 3] {
        if self.rotation != 0. {
            let s = self.rotation.sin();
            let c = self.rotation.cos();
            [x * c - y * s + self.global_position.x, x * s + y * c + self.global_position.y, 0.]
        } else {
            [x + self.global_position.x, y + self.global_position.y, 0.]
        }
    }

    fn tinted(&self, tint: f32) -> [f32; 4] {
        [self.color[0], self.color[1], self.color[2], tint]
    }
}

impl Body for Body2d {
    type Stage = Stage;
    type Point = V2;
    type Tint = f32;
    type Vertex = Vertex;

    fn place(&mut self, anchor: Anchor, stage: &Stage) -> bool {
        let base = match anchor {
            Anchor::Parent => self.parent_position,
            Anchor::Screen { x, y } => v2(
                stage.camera.x + x as f32 * stage.canvas_proj.x,
                stage.camera.y + y as f32 * stage.canvas_proj.y,
            ),
        };
        if self.global_position != self.seen.position {
            self.position = v2(self.global_position.x - base.x, self.global_position.y - base.y);
        }
        let resolved = v2(base.x + self.position.x, base.y + self.position.y);
        let moved = resolved != self.seen.position;
        self.global_position = resolved;
        self.seen.position = resolved;
        moved
    }

    fn follow(&mut self, parent: &Self) {
        self.parent_position = v2(
            parent.global_position.x + parent.cache_offset.x / 2.,
            parent.global_position.y + parent.cache_offset.y / 2.,
        );
    }

    fn reshape(&mut self) -> bool {
        if self.obj == Obj::Nothing {
            return false;
        }
        let changed = self.obj != self.seen.obj
            || self.offset != self.seen.offset
            || self.scale != self.seen.scale
            || self.rotation != self.seen.rotation;
        if changed {
            self.seen.obj = self.obj;
            self.seen.offset = self.offset;
            self.seen.scale = self.scale;
            self.seen.rotation = self.rotation;
            let size = match self.obj {
                Obj::Rect(w, h, _) => v2(w, h),
                Obj::Circle(r) => v2(r, r),
                Obj::Texture(_, w, h) => v2(w, h),
                Obj::Nothing => v2(0., 0.),
            };
            self.cache_offset =
                v2(self.offset.x * size.x * self.scale.x, self.offset.y * size.y * self.scale.y);
        }
        changed
    }

    fn image(&self) -> Option<usize> {
        match self.obj {
            Obj::Texture(id, _, _) => Some(id),
            _ => None,
        }
    }

    fn shape(&self) -> Shape {
        match self.obj {
            Obj::Nothing => Shape::Blank,
            Obj::Circle(_) => Shape::Circle,
            Obj::Rect(_, _, r) => Shape::Rect { rounded: r > 1. },
            Obj::Texture(..) => Shape::Image,
        }
    }

    fn tint(&self, inherited: &f32) -> f32 {
        self.color[3] * inherited
    }

    fn hub(&self, tint: &f32) -> Vertex {
        Vertex {
            pos: [self.global_position.x, self.global_position.y, 0.],
            color: self.tinted(*tint),
            uv: [0., 0.],
        }
    }

    fn rim(&self, step: u16, tint: &f32) -> Vertex {
        let theta = step as f32 / SEGMENTS as f32 * std::f32::consts::TAU;
        let shift = self.shift();
        let (x, y) = match self.obj {
            Obj::Rect(_, _, r) => {
                let half = self.half_extent();
                let centre = match corner_of(step) {
                    0 => v2(half.x - r, half.y - r),
                    1 => v2(-half.x + r, half.y - r),
                    2 => v2(-half.x + r, -half.y + r),
                    _ => v2(half.x - r, -half.y + r),
                };
                (
                    centre.x + r * theta.cos() * self.scale.x + shift.x,
                    centre.y + r * theta.sin() * self.scale.y + shift.y,
                )
            }
            Obj::Circle(r) => (
                r * theta.cos() * self.scale.x + shift.x,
                r * theta.sin() * self.scale.y + shift.y,
            ),
            _ => (0., 0.),
        };
        Vertex { pos: self.rotate(x, y), color: self.tinted(*tint), uv: [0., 0.] }
    }

    fn corner(&self, k: u8, tint: &f32) -> Vertex {
        let half = self.half_extent();
        let shift = self.shift();
        let (sx, sy) = match k {
            0 => (-1., -1.),
            1 => (1., -1.),
            2 => (1., 1.),
            _ => (-1., 1.),
        };
        let textured = matches!(self.obj, Obj::Texture(..));
        let uv = if textured { [(sx + 1.) / 2., (sy + 1.) / 2.] } else { [0., 0.] };
        Vertex {
            pos: self.rotate(sx * half.x + shift.x, sy * half.y + shift.y),
            color: self.tinted(*tint),
            uv,
        }
    }

    fn contains(&self, point: &V2) -> bool {
        let dx = point.x - self.global_position.x;
        let dy = point.y - self.global_position.y;
        let sin = self.rotation.sin();
        let cos = self.rotation.cos();
        let local_x = cos * dx + sin * dy;
        let local_y = -sin * dx + cos * dy;
        let off = self.cache_offset;
        match self.obj {
            Obj::Rect(w, h, _) => {
                (local_x - off.x).abs() / self.scale.x + off.x < w / 2.
                    && (local_y - off.y).abs() / self.scale.y + off.y < h / 2.
            }
            Obj::Circle(r) => {
                (((local_x - off.x) / self.scale.x).powi(2)
                    + ((local_y - off.y) / self.scale.y).powi(2))
                .sqrt()
                    < r
            }
            Obj::Texture(_, w, h) => {
                (local_x - off.x).abs() / self.scale.x < w / 2.
                    && (local_y - off.y).abs() / self.scale.y < h / 2.
            }
            Obj::Nothing => true,
        }
    }
}

/// Behaviour 0 writes no hook; behaviour 1 takes every event for itself; behaviour 2
/// notes the event and passes it on; behaviour 3 moves its node in every update.
struct Scripts;

impl Module<Body2d> for Scripts {
    fn start(&self, script: usize, obj: &mut Node2d<Body2d>, stage: &mut Stage) {
        stage.log.push((script, format!("start {}", obj.name), 0, Touch::Move));
    }

    fn update(&self, script: usize, obj: &mut Node2d<Body2d>, _stage: &mut Stage) {
        if script == 3 {
            obj.body.position.x += 1.;
        }
    }

    fn touch(
        &self,
        script: usize,
        obj: &mut Node2d<Body2d>,
        stage: &mut Stage,
        id: u64,
        touch: Touch,
        _pos: &V2,
    ) -> bool {
        stage.log.push((script, obj.name.clone(), id, touch));
        script != 1
    }
}

/// A module that writes no hook at all.
struct Quiet;

impl Module<Body2d> for Quiet {}

fn node(name: &str, obj: Obj) -> CreateNode2d<Body2d> {
    CreateNode2d::new(name, body(obj))
}

fn started(root: CreateNode2d<Body2d>, table: &mut Renders<Vertex>, stage: &mut Stage) -> Node2d<Body2d> {
    let mut root = root.get_node();
    assert!(root.start(&Scripts, stage, table, usize::MAX));
    root
}

fn frame(root: &mut Node2d<Body2d>, table: &mut Renders<Vertex>, stage: &mut Stage) {
    assert!(root.update(&Scripts, stage, table, usize::MAX));
    root.draw(table, &1.);
}

fn snapshot(table: &Renders<Vertex>) -> Vec<Option<(Vec<Vertex>, Vec<u16>, Option<usize>, DrawUpdate)>> {
    table
        .slots
        .iter()
        .map(|slot| {
            slot.as_ref().map(|s| (s.vertices.clone(), s.indices.clone(), s.image, s.update))
        })
        .collect()
}

#[test]
fn a_new_node_waits_for_its_first_draw() {
    let n = node("a", Obj::Circle(1.)).get_node();
    assert_eq!(n.name, "a");
    assert_eq!(n.keep, Keep::Canvas);
    assert!(n.visible);
    assert!(n.shown);
    assert!(n.node.is_empty());
    assert_eq!(n.script, None);
    assert_eq!(n.touch_id, None);
    assert_eq!(n.render_id, None);
    assert_eq!(n.draw_update, DrawUpdate::Create);
    assert!(n.hash.is_empty());
}

#[test]
fn the_builder_sets_what_it_is_told() {
    let n = node("a", Obj::Nothing)
        .script(4)
        .visible(false)
        .keep(Keep::RightDown)
        .node(vec![node("b", Obj::Nothing), node("c", Obj::Nothing)])
        .get_node();
    assert_eq!(n.script, Some(4));
    assert!(!n.visible);
    assert_eq!(n.keep, Keep::RightDown);
    assert_eq!(n.node.len(), 2);
    assert_eq!(n.node[0].name, "b");
    assert_eq!(n.node[1].name, "c");
}

#[test]
fn canvas_nodes_sit_at_parent_anchor_plus_position() {
    let mut table = Renders::new();
    let mut st = stage();
    st.camera = v2(500., -300.);
    let root = node("", Obj::Nothing)
        .node(vec![node("a", Obj::Circle(10.)).node(vec![node("b", Obj::Circle(5.))])]);
    let mut root = started(root, &mut table, &mut st);
    root.body.position = v2(10., 20.);
    root.node[0].body.position = v2(5., 5.);
    root.node[0].node[0].body.position = v2(-1., 2.);
    frame(&mut root, &mut table, &mut st);
    assert_eq!(root.body.global_position, v2(10., 20.));
    assert_eq!(root.node[0].body.global_position, v2(15., 25.));
    assert_eq!(root.node[0].node[0].body.global_position, v2(14., 27.));
    st.camera = v2(-7., 9.);
    frame(&mut root, &mut table, &mut st);
    assert_eq!(root.node[0].node[0].body.global_position, v2(14., 27.));
}

#[test]
fn screen_anchors_track_camera_and_canvas_edge() {
    let cases = [
        (Keep::Center, 0., 0.),
        (Keep::Up, 0., -1.),
        (Keep::Down, 0., 1.),
        (Keep::Left, -1., 0.),
        (Keep::Right, 1., 0.),
        (Keep::LeftUp, -1., -1.),
        (Keep::LeftDown, -1., 1.),
        (Keep::RightUp, 1., -1.),
        (Keep::RightDown, 1., 1.),
    ];
    for (keep, sx, sy) in cases {
        let mut table = Renders::new();
        let mut st = stage();
        st.camera = v2(100., 50.);
        st.canvas_proj = v2(640., 360.);
        let root = node("", Obj::Nothing).node(vec![node("hud", Obj::Circle(3.)).keep(keep)]);
        let mut root = started(root, &mut table, &mut st);
        root.body.position = v2(1000., 1000.);
        root.node[0].body.position = v2(3., 4.);
        frame(&mut root, &mut table, &mut st);
        let expected = v2(100. + sx * 640. + 3., 50. + sy * 360. + 4.);
        assert_eq!(root.node[0].body.global_position, expected, "{:?}", keep);
        st.camera = v2(-20., 30.);
        frame(&mut root, &mut table, &mut st);
        let expected = v2(-20. + sx * 640. + 3., 30. + sy * 360. + 4.);
        assert_eq!(root.node[0].body.global_position, expected, "{:?}", keep);
    }
}

#[test]
fn keep_resolves_to_the_edge_it_names() {
    assert_eq!(Keep::Canvas.anchor(), Anchor::Parent);
    assert_eq!(Keep::Center.anchor(), Anchor::Screen { x: 0, y: 0 });
    assert_eq!(Keep::Up.anchor(), Anchor::Screen { x: 0, y: -1 });
    assert_eq!(Keep::Down.anchor(), Anchor::Screen { x: 0, y: 1 });
    assert_eq!(Keep::Left.anchor(), Anchor::Screen { x: -1, y: 0 });
    assert_eq!(Keep::Right.anchor(), Anchor::Screen { x: 1, y: 0 });
    assert_eq!(Keep::LeftUp.anchor(), Anchor::Screen { x: -1, y: -1 });
    assert_eq!(Keep::LeftDown.anchor(), Anchor::Screen { x: -1, y: 1 });
    assert_eq!(Keep::RightUp.anchor(), Anchor::Screen { x: 1, y: -1 });
    assert_eq!(Keep::RightDown.anchor(), Anchor::Screen { x: 1, y: 1 });
}

#[test]
fn a_global_position_that_was_set_is_read_back() {
    let mut table = Renders::new();
    let mut st = stage();
    let root = node("", Obj::Nothing).node(vec![node("a", Obj::Circle(10.))]);
    let mut root = started(root, &mut table, &mut st);
    root.body.position = v2(100., 100.);
    frame(&mut root, &mut table, &mut st);
    root.node[0].body.global_position = v2(250., -40.);
    frame(&mut root, &mut table, &mut st);
    assert_eq!(root.node[0].body.global_position, v2(250., -40.));
    assert_eq!(root.node[0].body.position, v2(150., -140.));
    frame(&mut root, &mut table, &mut st);
    assert_eq!(root.node[0].body.global_position, v2(250., -40.));
}

#[test]
fn drawing_twice_is_drawing_once() {
    let mut table = Renders::new();
    let mut st = stage();
    let root = node("", Obj::Nothing).node(vec![
        node("a", Obj::Circle(10.)),
        node("b", Obj::Rect(4., 2., 0.)).node(vec![node("c", Obj::Texture(3, 8., 8.))]),
        node("d", Obj::Circle(1.)).visible(false),
    ]);
    let mut root = started(root, &mut table, &mut st);
    assert!(root.update(&Scripts, &mut st, &mut table, usize::MAX));
    root.draw(&mut table, &1.);
    let once = snapshot(&table);
    root.draw(&mut table, &1.);
    assert_eq!(snapshot(&table), once);
    root.draw(&mut table, &0.5);
    assert_eq!(snapshot(&table), once);
    assert_eq!(once[1].as_ref().unwrap().0.len(), 41);
    assert_eq!(once[2].as_ref().unwrap().0.len(), 4);
    assert_eq!(once[3].as_ref().unwrap().2, Some(3));
    assert!(once[4].as_ref().unwrap().0.is_empty());
}

#[test]
fn a_create_tag_stays_until_the_batcher_reads_it() {
    let mut table = Renders::new();
    let mut st = stage();
    let root = node("", Obj::Nothing).node(vec![node("a", Obj::Circle(10.)).script(3)]);
    let mut root = started(root, &mut table, &mut st);
    let id = root.node[0].render_id.unwrap();
    assert_eq!(table.slots[id].as_ref().unwrap().update, DrawUpdate::Create);
    for _ in 0..5 {
        frame(&mut root, &mut table, &mut st);
        assert_eq!(table.slots[id].as_ref().unwrap().update, DrawUpdate::Create);
    }
    let batches = table.batches();
    assert_eq!(batches.len(), 1);
    assert_eq!(batches[0].update, DrawUpdate::Create);
    assert_eq!(table.slots[id].as_ref().unwrap().update, DrawUpdate::Unchanged);
    frame(&mut root, &mut table, &mut st);
    assert_eq!(table.slots[id].as_ref().unwrap().update, DrawUpdate::Update);
    assert_eq!(table.batches()[0].update, DrawUpdate::Update);
    root.node[0].script = None;
    frame(&mut root, &mut table, &mut st);
    assert_eq!(table.batches()[0].update, DrawUpdate::Unchanged);
}

#[test]
fn nodes_get_their_slots_parents_first() {
    let mut table = Renders::new();
    let mut st = stage();
    let root = node("r", Obj::Nothing).node(vec![
        node("a", Obj::Nothing).node(vec![node("b", Obj::Nothing)]),
        node("c", Obj::Nothing),
    ]);
    let root = started(root, &mut table, &mut st);
    assert_eq!(root.render_id, Some(0));
    assert_eq!(root.node[0].render_id, Some(1));
    assert_eq!(root.node[0].node[0].render_id, Some(2));
    assert_eq!(root.node[1].render_id, Some(3));
    assert_eq!(table.len(), 4);
}

#[test]
fn an_added_node_gets_its_slot_when_it_is_added() {
    let mut table = Renders::new();
    let mut st = stage();
    let mut root = started(node("r", Obj::Nothing), &mut table, &mut st);
    root.add_node(vec![node("late", Obj::Circle(2.)), node("later", Obj::Circle(3.))], &mut table);
    assert_eq!(root.node[0].render_id, Some(1));
    assert_eq!(root.node[1].render_id, Some(2));
    assert_eq!(root.node[0].draw_update, DrawUpdate::Create);
    assert_eq!(table.len(), 3);
    assert!(table.slots[1].as_ref().unwrap().vertices.is_empty());
    assert_eq!(table.slots[1].as_ref().unwrap().update, DrawUpdate::Create);
    assert_eq!(table.slots[2].as_ref().unwrap().update, DrawUpdate::Create);
    root.draw(&mut table, &1.);
    assert_eq!(table.slots[1].as_ref().unwrap().vertices.len(), 41);
    assert_eq!(table.slots[2].as_ref().unwrap().vertices.len(), 41);
    let mut housed = node("housed", Obj::Circle(1.)).get_node();
    housed.render_id = Some(0);
    housed.draw_update = DrawUpdate::Unchanged;
    root.add_node(vec![tgr::CreateNode2d { node2d: housed }, node("fresh", Obj::Nothing)], &mut table);
    assert_eq!(root.node[2].render_id, Some(0));
    assert_eq!(root.node[2].draw_update, DrawUpdate::Unchanged);
    assert_eq!(root.node[3].render_id, Some(3));
    assert_eq!(table.len(), 4);
}

#[test]
fn a_bounded_walk_says_when_it_stopped_short() {
    let mut table = Renders::new();
    let mut st = stage();
    let mut root = node("r", Obj::Nothing)
        .node(vec![node("a", Obj::Nothing).node(vec![node("b", Obj::Nothing)])])
        .get_node();
    assert!(!root.update(&Scripts, &mut st, &mut table, 1));
    assert_eq!(root.node[0].render_id, Some(1));
    assert_eq!(root.node[0].node[0].render_id, None);
    assert!(root.update(&Scripts, &mut st, &mut table, 2));
    assert_eq!(root.node[0].node[0].render_id, Some(2));
}

#[test]
fn start_calls_the_hooks_parents_first() {
    let mut table = Renders::new();
    let mut st = stage();
    let root = node("r", Obj::Nothing).script(0).node(vec![
        node("a", Obj::Nothing).script(0).node(vec![node("b", Obj::Nothing).script(0)]),
        node("c", Obj::Nothing).script(0),
    ]);
    started(root, &mut table, &mut st);
    let order: Vec<&str> = st.log.iter().map(|e| e.1.as_str()).collect();
    assert_eq!(order, vec!["start r", "start a", "start b", "start c"]);
}

#[test]
fn get_node_finds_the_first_child_of_the_name() {
    let mut root = node("r", Obj::Nothing)
        .node(vec![
            node("a", Obj::Circle(1.)),
            node("b", Obj::Circle(2.)),
            node("a", Obj::Circle(3.)),
        ])
        .get_node();
    assert_eq!(root.find("a"), Some(0));
    assert_eq!(root.find("b"), Some(1));
    assert_eq!(root.find("z"), None);
    let found = root.get_node("a").unwrap();
    assert_eq!(found.body.obj, Obj::Circle(1.));
    found.visible = false;
    assert!(!root.node[0].visible);
    assert!(root.node[2].visible);
    assert!(root.get_node("z").is_none());
    assert!(root.get_node("").is_none());
}

#[test]
fn del_node_takes_the_first_child_of_the_name_and_frees_its_slots() {
    let mut table = Renders::new();
    let mut st = stage();
    let root = node("r", Obj::Nothing).node(vec![
        node("a", Obj::Circle(1.)).node(vec![node("x", Obj::Circle(1.))]),
        node("b", Obj::Circle(2.)),
        node("a", Obj::Circle(3.)),
    ]);
    let mut root = started(root, &mut table, &mut st);
    let gone = root.del_node("a", &mut table).ok().unwrap();
    assert_eq!(gone.body.obj, Obj::Circle(1.));
    assert_eq!(gone.node.len(), 1);
    assert_eq!(root.node.len(), 2);
    assert_eq!(root.node[0].name, "b");
    assert_eq!(root.node[1].body.obj, Obj::Circle(3.));
    assert!(table.is_live(0));
    assert!(!table.is_live(1));
    assert!(!table.is_live(2));
    assert!(table.is_live(3));
    assert!(table.is_live(4));
    assert_eq!(table.len(), 5);
}

#[test]
fn del_node_names_the_child_it_did_not_find() {
    let mut table = Renders::new();
    let mut st = stage();
    let root = node("r", Obj::Nothing).node(vec![node("a", Obj::Circle(1.))]);
    let mut root = started(root, &mut table, &mut st);
    let before = snapshot(&table);
    match root.del_node("ghost", &mut table) {
        Err(message) => assert_eq!(message, "Not found object (ghost)"),
        Ok(_) => panic!("nothing should be found"),
    }
    assert_eq!(root.node.len(), 1);
    assert_eq!(snapshot(&table), before);
}

#[test]
fn an_invisible_subtree_leaves_nothing_in_the_table() {
    let mut table = Renders::new();
    let mut st = stage();
    let root = node("r", Obj::Nothing)
        .node(vec![node("a", Obj::Circle(10.)).node(vec![node("b", Obj::Rect(2., 2., 0.))])]);
    let mut root = started(root, &mut table, &mut st);
    frame(&mut root, &mut table, &mut st);
    table.batches();
    assert_eq!(table.slots[1].as_ref().unwrap().vertices.len(), 41);
    assert_eq!(table.slots[2].as_ref().unwrap().vertices.len(), 4);
    root.node[0].visible = false;
    frame(&mut root, &mut table, &mut st);
    assert!(table.slots[1].as_ref().unwrap().vertices.is_empty());
    assert!(table.slots[1].as_ref().unwrap().indices.is_empty());
    assert!(table.slots[2].as_ref().unwrap().vertices.is_empty());
    assert_eq!(table.slots[1].as_ref().unwrap().update, DrawUpdate::Update);
    assert_eq!(table.slots[2].as_ref().unwrap().update, DrawUpdate::Update);
    table.batches();
    let hidden = snapshot(&table);
    frame(&mut root, &mut table, &mut st);
    assert_eq!(snapshot(&table), hidden);
    root.node[0].visible = true;
    frame(&mut root, &mut table, &mut st);
    assert_eq!(table.slots[1].as_ref().unwrap().vertices.len(), 41);
    assert_eq!(table.slots[2].as_ref().unwrap().vertices.len(), 4);
    assert_eq!(table.slots[1].as_ref().unwrap().update, DrawUpdate::Update);
}

#[test]
fn opacity_is_handed_down() {
    let mut table = Renders::new();
    let mut st = stage();
    let root = node("r", Obj::Nothing).node(vec![node("a", Obj::Rect(2., 2., 0.))]);
    let mut root = started(root, &mut table, &mut st);
    root.body.color[3] = 0.5;
    root.node[0].body.color[3] = 0.5;
    assert!(root.update(&Scripts, &mut st, &mut table, usize::MAX));
    root.draw(&mut table, &0.5);
    let slot = table.slots[1].as_ref().unwrap();
    assert_eq!(slot.vertices[0].color[3], 0.125);
}

#[test]
fn a_circle_is_a_fan_of_forty() {
    let n = node("c", Obj::Circle(100.)).get_node();
    match n.outline(Shape::Circle, &1.) {
        Outline::Fan(vertices) => {
            assert_eq!(vertices.len(), 41);
            assert_eq!(vertices[0].pos, [0., 0., 0.]);
            assert_eq!(vertices[1].pos, [100., 0., 0.]);
            assert!((vertices[11].pos[0]).abs() < 1e-3);
            assert!((vertices[11].pos[1] - 100.).abs() < 1e-3);
        }
        _ => panic!("a circle is a fan"),
    }
    assert_eq!(SEGMENTS, 40);
    assert_eq!(CORNER_SEGMENTS, 10);
    assert_eq!(corner_of(0), 0);
    assert_eq!(corner_of(9), 0);
    assert_eq!(corner_of(10), 1);
    assert_eq!(corner_of(39), 3);
}

#[test]
fn a_rectangle_is_a_quad_unless_its_corners_are_round() {
    let n = node("r", Obj::Rect(200., 100., 0.)).get_node();
    match n.outline(n.body.shape(), &1.) {
        Outline::Quad(corners) => {
            assert_eq!(corners[0].pos, [-100., -50., 0.]);
            assert_eq!(corners[1].pos, [100., -50., 0.]);
            assert_eq!(corners[2].pos, [100., 50., 0.]);
            assert_eq!(corners[3].pos, [-100., 50., 0.]);
        }
        _ => panic!("a plain rectangle is a quad"),
    }
    let n = node("r", Obj::Rect(200., 100., 1.)).get_node();
    assert_eq!(n.body.shape(), Shape::Rect { rounded: false });
    let n = node("r", Obj::Rect(200., 100., 20.)).get_node();
    match n.outline(n.body.shape(), &1.) {
        Outline::Fan(vertices) => {
            assert_eq!(vertices.len(), 41);
            assert_eq!(vertices[1].pos, [100., 30., 0.]);
        }
        _ => panic!("a rounded rectangle is a fan"),
    }
    let n = node("n", Obj::Nothing).get_node();
    assert!(matches!(n.outline(n.body.shape(), &1.), Outline::Blank));
}

#[test]
fn an_image_is_a_quad_with_the_texture_laid_on() {
    let n = node("i", Obj::Texture(5, 64., 32.)).get_node();
    match n.outline(n.body.shape(), &1.) {
        Outline::Quad(corners) => {
            assert_eq!(corners[0].pos, [-32., -16., 0.]);
            assert_eq!(corners[0].uv, [0., 0.]);
            assert_eq!(corners[1].uv, [1., 0.]);
            assert_eq!(corners[2].pos, [32., 16., 0.]);
            assert_eq!(corners[2].uv, [1., 1.]);
            assert_eq!(corners[3].uv, [0., 1.]);
        }
        _ => panic!("an image is a quad"),
    }
}

fn pressed(obj: Obj, rotation: f32, x: f32, y: f32) -> bool {
    let mut table = Renders::new();
    let mut st = stage();
    let root = CreateNode2d::new("shape", body(obj).turned(rotation)).script(1);
    let mut root = started(root, &mut table, &mut st);
    frame(&mut root, &mut table, &mut st);
    let live = root.touch(&Scripts, &mut st, 0, Touch::Press, &v2(x, y));
    assert_eq!(live, root.touch_id.is_none());
    root.touch_id == Some(0)
}

#[test]
fn a_circle_is_pressed_inside_its_radius() {
    assert!(pressed(Obj::Circle(100.), 0., 99., 0.));
    assert!(!pressed(Obj::Circle(100.), 0., 101., 0.));
    assert!(pressed(Obj::Circle(100.), 0., 0., -99.));
    assert!(!pressed(Obj::Circle(100.), 0., 80., 80.));
}

#[test]
fn a_rectangle_is_pressed_inside_its_half_extents() {
    assert!(pressed(Obj::Rect(200., 100., 0.), 0., 99., 49.));
    assert!(!pressed(Obj::Rect(200., 100., 0.), 0., 101., 0.));
    assert!(!pressed(Obj::Rect(200., 100., 0.), 0., 0., 51.));
}

#[test]
fn a_turned_rectangle_swaps_its_axes() {
    let quarter = std::f32::consts::FRAC_PI_2;
    assert!(pressed(Obj::Rect(200., 100., 0.), quarter, 49., 99.));
    assert!(!pressed(Obj::Rect(200., 100., 0.), quarter, 99., 49.));
}

#[test]
fn a_shapeless_node_is_pressed_anywhere() {
    assert!(pressed(Obj::Nothing, 0., 1e6, -1e6));
}

#[test]
fn the_node_on_top_is_asked_first() {
    let mut table = Renders::new();
    let mut st = stage();
    let root = node("r", Obj::Nothing).script(1).node(vec![
        node("back", Obj::Circle(50.)).script(1),
        node("front", Obj::Circle(50.)).script(1).node(vec![node("knob", Obj::Circle(10.)).script(1)]),
    ]);
    let mut root = started(root, &mut table, &mut st);
    frame(&mut root, &mut table, &mut st);
    st.log.clear();
    assert!(!root.touch(&Scripts, &mut st, 7, Touch::Press, &v2(0., 0.)));
    assert_eq!(st.log, vec![(1, "knob".to_string(), 7, Touch::Press)]);
    assert_eq!(root.node[1].node[0].touch_id, Some(7));
    assert_eq!(root.node[1].touch_id, None);
    assert_eq!(root.node[0].touch_id, None);
    assert_eq!(root.touch_id, None);
    st.log.clear();
    assert!(!root.touch(&Scripts, &mut st, 8, Touch::Press, &v2(30., 0.)));
    assert_eq!(st.log, vec![(1, "front".to_string(), 8, Touch::Press)]);
}

#[test]
fn an_event_that_is_passed_on_reaches_the_nodes_behind() {
    let mut table = Renders::new();
    let mut st = stage();
    let root = node("r", Obj::Nothing).script(1).node(vec![
        node("back", Obj::Circle(50.)).script(2),
        node("front", Obj::Circle(50.)).script(2),
    ]);
    let mut root = started(root, &mut table, &mut st);
    frame(&mut root, &mut table, &mut st);
    st.log.clear();
    assert!(!root.touch(&Scripts, &mut st, 1, Touch::Press, &v2(0., 0.)));
    let names: Vec<&str> = st.log.iter().map(|e| e.1.as_str()).collect();
    assert_eq!(names, vec!["front", "back", "r"]);
}

#[test]
fn moves_and_the_release_go_to_the_node_that_was_pressed() {
    let mut table = Renders::new();
    let mut st = stage();
    let root = node("r", Obj::Nothing).node(vec![
        node("a", Obj::Circle(50.)).script(1),
        node("b", Obj::Circle(50.)).script(1),
    ]);
    let mut root = started(root, &mut table, &mut st);
    root.node[1].body.position = v2(200., 0.);
    frame(&mut root, &mut table, &mut st);
    st.log.clear();
    assert!(root.touch(&Scripts, &mut st, 1, Touch::Move, &v2(0., 0.)));
    assert!(root.touch(&Scripts, &mut st, 1, Touch::Relese, &v2(0., 0.)));
    assert!(st.log.is_empty());
    assert!(!root.touch(&Scripts, &mut st, 1, Touch::Press, &v2(0., 0.)));
    assert!(!root.touch(&Scripts, &mut st, 2, Touch::Press, &v2(200., 0.)));
    assert_eq!(root.node[0].touch_id, Some(1));
    assert_eq!(root.node[1].touch_id, Some(2));
    st.log.clear();
    assert!(!root.touch(&Scripts, &mut st, 1, Touch::Move, &v2(200., 0.)));
    assert_eq!(st.log, vec![(1, "a".to_string(), 1, Touch::Move)]);
    st.log.clear();
    assert!(root.touch(&Scripts, &mut st, 3, Touch::Relese, &v2(0., 0.)));
    assert!(st.log.is_empty());
    assert!(!root.touch(&Scripts, &mut st, 2, Touch::Relese, &v2(0., 0.)));
    assert_eq!(st.log, vec![(1, "b".to_string(), 2, Touch::Relese)]);
    assert_eq!(root.node[1].touch_id, None);
    assert_eq!(root.node[0].touch_id, Some(1));
    assert!(root.touch(&Scripts, &mut st, 2, Touch::Move, &v2(200., 0.)));
}

#[test]
fn a_press_that_misses_everything_stays_live() {
    let mut table = Renders::new();
    let mut st = stage();
    let root = node("r", Obj::Nothing).node(vec![node("a", Obj::Circle(50.)).script(1)]);
    let mut root = started(root, &mut table, &mut st);
    frame(&mut root, &mut table, &mut st);
    st.log.clear();
    assert!(root.touch(&Scripts, &mut st, 1, Touch::Press, &v2(500., 500.)));
    assert!(st.log.is_empty());
    assert_eq!(root.node[0].touch_id, None);
}

#[test]
fn a_behaviour_without_a_touch_hook_passes_the_event_on() {
    let mut st = stage();
    let mut root = node("r", Obj::Nothing).script(0).get_node();
    assert!(root.touch(&Quiet, &mut st, 1, Touch::Press, &v2(0., 0.)));
    assert_eq!(root.touch_id, Some(1));
    assert!(root.touch(&Quiet, &mut st, 1, Touch::Relese, &v2(0., 0.)));
    assert_eq!(root.touch_id, None);
}

#[test]
fn accepts_follows_the_pointer() {
    let mut n = node("a", Obj::Nothing).get_node();
    assert!(!n.accepts(1, Touch::Press, false));
    assert_eq!(n.touch_id, None);
    assert!(!n.accepts(1, Touch::Move, true));
    assert!(!n.accepts(1, Touch::Relese, true));
    assert!(n.accepts(1, Touch::Press, true));
    assert_eq!(n.touch_id, Some(1));
    assert!(n.accepts(1, Touch::Move, false));
    assert!(!n.accepts(2, Touch::Move, false));
    assert!(!n.accepts(2, Touch::Relese, false));
    assert_eq!(n.touch_id, Some(1));
    assert!(n.accepts(2, Touch::Press, true));
    assert_eq!(n.touch_id, Some(2));
    assert!(n.accepts(2, Touch::Relese, false));
    assert_eq!(n.touch_id, None);
}

#[test]
fn the_steps_of_a_draw_do_what_they_say() {
    let mut table: Renders<Vertex> = Renders::new();
    let mut n = node("a", Obj::Texture(9, 2., 2.)).get_node();
    n.enter(&mut table);
    assert_eq!(n.render_id, Some(0));
    n.enter(&mut table);
    assert_eq!(n.render_id, Some(0));
    assert_eq!(table.len(), 1);
    table.del_render(0);
    n.enter(&mut table);
    assert_eq!(n.render_id, Some(1));
    n.draw_update = DrawUpdate::Unchanged;
    n.note(&mut table, false, false, Some(9));
    assert_eq!(n.draw_update, DrawUpdate::Unchanged);
    assert_eq!(table.slots[1].as_ref().unwrap().image, None);
    n.note(&mut table, true, false, Some(9));
    assert_eq!(n.draw_update, DrawUpdate::Update);
    assert_eq!(table.slots[1].as_ref().unwrap().image, None);
    n.note(&mut table, false, true, Some(9));
    assert_eq!(table.slots[1].as_ref().unwrap().image, Some(9));
    let outline = n.outline(Shape::Image, &1.);
    n.paint(&mut table, outline);
    assert_eq!(n.draw_update, DrawUpdate::Unchanged);
    assert_eq!(table.slots[1].as_ref().unwrap().indices, vec![0, 1, 3, 1, 2, 3]);
    assert_eq!(table.slots[1].as_ref().unwrap().update, DrawUpdate::Create);
    n.shown = false;
    n.uncover(&mut table, None);
    assert!(n.shown);
    assert_eq!(n.draw_update, DrawUpdate::Update);
    assert_eq!(table.slots[1].as_ref().unwrap().image, None);
    n.conceal(&mut table);
    assert!(table.slots[1].as_ref().unwrap().vertices.is_empty());
    n.release(&mut table);
    assert!(!table.is_live(1));
}

#[test]
fn a_node_keeps_values_by_key() {
    let mut n = node("a", Obj::Nothing).hash("on", vec![1]).hash("name", b"knob".to_vec()).get_node();
    assert_eq!(n.get_hash("on"), Some(&vec![1]));
    assert_eq!(n.get_hash("name"), Some(&b"knob".to_vec()));
    assert_eq!(n.get_hash("off"), None);
    assert_eq!(n.get_hash(""), None);
    n.set_hash("on", vec![0]);
    assert_eq!(n.get_hash("on"), Some(&vec![0]));
    assert_eq!(n.hash.len(), 2);
    assert_eq!(n.hash[0].0, "on");
    n.set_hash("pos", vec![1, 2, 3, 4]);
    assert_eq!(n.hash.len(), 3);
    n.get_hash_mut("pos").unwrap().push(5);
    assert_eq!(n.get_hash("pos"), Some(&vec![1, 2, 3, 4, 5]));
    assert!(n.get_hash_mut("none").is_none());
    assert_eq!(n.get_hash("name"), Some(&b"knob".to_vec()));
}

#[test]
fn of_two_entries_with_one_key_the_first_counts() {
    let mut n = node("a", Obj::Nothing).get_node();
    n.hash.push(("k".to_string(), vec![1]));
    n.hash.push(("k".to_string(), vec![2]));
    assert_eq!(n.get_hash("k"), Some(&vec![1]));
    n.set_hash("k", vec![3]);
    assert_eq!(n.hash[0].1, vec![3]);
    assert_eq!(n.hash[1].1, vec![2]);
    *n.get_hash_mut("k").unwrap() = vec![4];
    assert_eq!(n.hash[0].1, vec![4]);
    assert_eq!(n.hash[1].1, vec![2]);
}

#[test]
fn a_node_drawn_before_it_has_a_slot_is_built_once_it_has_one() {
    let mut table = Renders::new();
    let mut st = stage();
    let mut root = started(node("r", Obj::Nothing), &mut table, &mut st);
    root.node.push(node("late", Obj::Rect(2., 2., 0.)).get_node());
    root.draw(&mut table, &1.);
    assert_eq!(root.node[0].draw_update, DrawUpdate::Unchanged);
    assert_eq!(table.len(), 1);
    frame(&mut root, &mut table, &mut st);
    assert_eq!(root.node[0].render_id, Some(1));
    assert_eq!(table.slots[1].as_ref().unwrap().vertices.len(), 4);
    table.del_render(1);
    frame(&mut root, &mut table, &mut st);
    assert_eq!(root.node[0].render_id, Some(2));
    assert_eq!(table.slots[2].as_ref().unwrap().vertices.len(), 4);
    assert_eq!(table.slots[2].as_ref().unwrap().update, DrawUpdate::Create);
}

#[test]
fn a_press_hits_a_shape_where_the_pointer_is_inside_and_no_shape_anywhere() {
    assert!(press_hits(Shape::Blank, false));
    assert!(press_hits(Shape::Blank, true));
    assert!(press_hits(Shape::Circle, true));
    assert!(!press_hits(Shape::Circle, false));
    assert!(!press_hits(Shape::Rect { rounded: true }, false));
    assert!(press_hits(Shape::Image, true));
    assert!(!press_hits(Shape::Image, false));
}

#[test]
fn a_pivot_shifts_the_shape_by_its_scaled_half_size() {
    let mut b = body(Obj::Rect(200., 100., 0.));
    b.offset = v2(1., -1.);
    b.scale = v2(2., 3.);
    let n = CreateNode2d::new("r", b).get_node();
    match n.outline(n.body.shape(), &1.) {
        Outline::Quad(corners) => {
            assert_eq!(corners[0].pos, [-200. + 200., -150. - 150., 0.]);
            assert_eq!(corners[2].pos, [200. + 200., 150. - 150., 0.]);
        }
        _ => panic!("a plain rectangle is a quad"),
    }
}
