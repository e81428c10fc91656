use vstd::prelude::*;

use crate::map::MapCamera;
use crate::text::str_eq;

verus! {

/// Whether the client draws the 2D or the 3D scene.
#[derive(PartialEq, Eq, Structural, Clone, Copy, Debug)]
pub enum ClientDrawMode {
    D2,
    D3,
}

/// The camera a player entity asks for while the game runs.
#[derive(PartialEq, Eq, Structural, Clone, Copy, Debug)]
pub enum PlayerCamera {
    D2,
    D3Iso,
    D3FirstP,
}

/// Which client scene has to be (re)built before drawing.
#[derive(PartialEq, Eq, Structural, Clone, Copy, Debug)]
pub enum SceneBuild {
    Nothing,
    D2,
    D3,
}

/// The drawing state of the engine front end: dirty flags, draw mode and the
/// player camera. The client, server and assets it drives live outside.
#[derive(Clone, Copy, Debug)]
pub struct Rusterix {
    pub is_dirty_d2: bool,
    pub is_dirty_d3: bool,
    pub draw_mode: ClientDrawMode,
    pub player_camera: PlayerCamera,
}

/// The scene the engine draws for a map camera or a player camera: 2D for the
/// 2D map camera (editing) or the 2D player camera (game mode), 3D otherwise.
pub open spec fn wants_d2(game_mode: bool, player_camera: PlayerCamera, map_camera: MapCamera) -> bool {
    if game_mode {
        player_camera == PlayerCamera::D2
    } else {
        map_camera == MapCamera::TwoD
    }
}

/// While the game runs only the player camera decides, and only the 2D player
/// camera gives the 2D scene: the isometric and the first person cameras both
/// give the 3D scene, whatever the map camera. While editing only the map
/// camera decides, and only the 2D map camera gives the 2D scene.
pub proof fn lemma_scene_choice(player_camera: PlayerCamera, map_camera: MapCamera, other: MapCamera, other_player: PlayerCamera)
    ensures
        wants_d2(true, player_camera, map_camera) == wants_d2(true, player_camera, other),
        wants_d2(true, PlayerCamera::D2, map_camera),
        !wants_d2(true, PlayerCamera::D3Iso, map_camera),
        !wants_d2(true, PlayerCamera::D3FirstP, map_camera),
        wants_d2(false, player_camera, map_camera) == wants_d2(false, other_player, map_camera),
        wants_d2(false, player_camera, MapCamera::TwoD),
        !wants_d2(false, player_camera, MapCamera::ThreeDIso),
        !wants_d2(false, player_camera, MapCamera::ThreeDFirstPerson),
{
}

impl Rusterix {
    /// Both scenes dirty, 3D drawing, 2D player camera.
    pub fn new() -> (r: Self)
        ensures
            r.is_dirty_d2 && r.is_dirty_d3,
            r.draw_mode == ClientDrawMode::D3,
            r.player_camera == PlayerCamera::D2,
    {
        Rusterix {
            is_dirty_d2: true,
            is_dirty_d3: true,
            draw_mode: ClientDrawMode::D3,
            player_camera: PlayerCamera::D2,
        }
    }

    /// Set to 2D mode.
    pub fn set_d2(&mut self)
        ensures
            *final(self) == (Rusterix { draw_mode: ClientDrawMode::D2, ..*old(self) }),
    {
        self.draw_mode = ClientDrawMode::D2;
    }

    /// Set to 3D mode.
    pub fn set_d3(&mut self)
        ensures
            *final(self) == (Rusterix { draw_mode: ClientDrawMode::D3, ..*old(self) }),
    {
        self.draw_mode = ClientDrawMode::D3;
    }

    /// Marks both scenes as needing a rebuild.
    pub fn set_dirty(&mut self)
        ensures
            *final(self) == (Rusterix { is_dirty_d2: true, is_dirty_d3: true, ..*old(self) }),
    {
        self.is_dirty_d2 = true;
        self.is_dirty_d3 = true;
    }

    /// Decides which scene to build: the 2D one for the 2D (player or map)
    /// camera, else the 3D one, only when that scene is dirty. The chosen mode
    /// becomes the draw mode and its dirty flag is cleared; the caller builds
    /// the scene that is returned.
    pub fn build_scene(&mut self, map_camera: MapCamera, game_mode: bool) -> (r: SceneBuild)
        ensures
            wants_d2(game_mode, old(self).player_camera, map_camera) ==> {
                &&& r == (if old(self).is_dirty_d2 { SceneBuild::D2 } else { SceneBuild::Nothing })
                &&& *final(self) == (Rusterix { is_dirty_d2: false, draw_mode: ClientDrawMode::D2, ..*old(self) })
            },
            !wants_d2(game_mode, old(self).player_camera, map_camera) ==> {
                &&& r == (if old(self).is_dirty_d3 { SceneBuild::D3 } else { SceneBuild::Nothing })
                &&& *final(self) == (Rusterix { is_dirty_d3: false, draw_mode: ClientDrawMode::D3, ..*old(self) })
            },
    {
        let d2 = if game_mode {
            self.player_camera == PlayerCamera::D2
        } else {
            map_camera == MapCamera::TwoD
        };
        if d2 {
            let r = if self.is_dirty_d2 {
                SceneBuild::D2
            } else {
                SceneBuild::Nothing
            };
            self.is_dirty_d2 = false;
            self.set_d2();
            r
        } else {
            let r = if self.is_dirty_d3 {
                SceneBuild::D3
            } else {
                SceneBuild::Nothing
            };
            self.is_dirty_d3 = false;
            self.set_d3();
            r
        }
    }

    /// Decides whether the 3D scene must be built (when dirty), switching to 3D drawing.
    pub fn build_scene_d3(&mut self) -> (r: bool)
        ensures
            r == old(self).is_dirty_d3,
            *final(self) == (Rusterix { is_dirty_d3: false, draw_mode: ClientDrawMode::D3, ..*old(self) }),
    {
        let r = self.is_dirty_d3;
        self.is_dirty_d3 = false;
        self.set_d3();
        r
    }

    /// Switches to the camera a player asks for. Returns the new camera when it
    /// differs from the current one (the 3D camera then has to be replaced for
    /// the iso and first person cameras), `None` when nothing changes.
    pub fn apply_player_camera(&mut self, camera: PlayerCamera) -> (r: Option<PlayerCamera>)
        ensures
            camera != old(self).player_camera ==> r == Some(camera) && *final(self) == (Rusterix {
                player_camera: camera,
                ..*old(self)
            }),
            camera == old(self).player_camera ==> r is None && *final(self) == *old(self),
    {
        if camera != self.player_camera {
            self.player_camera = camera;
            Some(camera)
        } else {
            None
        }
    }
}


/// The player camera a script names: "iso" and "firstp" select the 3D
/// cameras, any other name the 2D one.
pub fn player_camera_named(name: &str) -> (r: PlayerCamera)
    ensures
        r == if name@ == "iso"@ {
            PlayerCamera::D3Iso
        } else if name@ == "firstp"@ {
            PlayerCamera::D3FirstP
        } else {
            PlayerCamera::D2
        },
{
    if str_eq(name, "iso") {
        PlayerCamera::D3Iso
    } else if str_eq(name, "firstp") {
        PlayerCamera::D3FirstP
    } else {
        PlayerCamera::D2
    }
}

} // verus!
