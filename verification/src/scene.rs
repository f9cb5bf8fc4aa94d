//! What a scene description describes: the camera, the limits of a
//! rendering, and the objects with their shapes, colours and materials.
//!
//! Real numbers stand here as their numerals. Each type has a view that holds
//! the numerals as character sequences; the contracts of the parser speak of
//! those views.

use vstd::prelude::*;
use crate::number::{is_number, Number};
use crate::text::same_text;

verus! {

/// Three coordinates, as written.
#[derive(Debug)]
pub struct Vector3 {
    pub x: Number,
    pub y: Number,
    pub z: Number,
}

/// The coordinates of a vector as character sequences.
pub struct Vector3View {
    pub x: Seq<char>,
    pub y: Seq<char>,
    pub z: Seq<char>,
}

impl Vector3View {
    /// Whether the three coordinates are numerals.
    pub open spec fn is_well_formed(self) -> bool {
        is_number(self.x) && is_number(self.y) && is_number(self.z)
    }
}

impl View for Vector3 {
    type V = Vector3View;

    open spec fn view(&self) -> Vector3View {
        Vector3View { x: self.x@, y: self.y@, z: self.z@ }
    }
}

/// A position and a direction, as written. The direction need not have unit
/// length: scaling it is numeric work.
#[derive(Debug)]
pub struct Ray {
    pub pos: Vector3,
    pub dir: Vector3,
}

/// A ray by the views of its two vectors.
pub struct RayView {
    pub pos: Vector3View,
    pub dir: Vector3View,
}

impl View for Ray {
    type V = RayView;

    open spec fn view(&self) -> RayView {
        RayView { pos: self.pos@, dir: self.dir@ }
    }
}

#[derive(Debug)]
pub struct Sphere {
    pub center: Vector3,
    pub radius: Number,
}

/// A sphere by the views of its centre and radius.
pub struct SphereView {
    pub center: Vector3View,
    pub radius: Seq<char>,
}

impl View for Sphere {
    type V = SphereView;

    open spec fn view(&self) -> SphereView {
        SphereView { center: self.center@, radius: self.radius@ }
    }
}

/// A point of the plane and its normal, as written. The normal need not have
/// unit length; one of length zero describes no plane, which shows only when
/// it is scaled.
#[derive(Debug)]
pub struct Plane {
    pub point: Vector3,
    pub norm: Vector3,
}

/// A plane by the views of its point and normal.
pub struct PlaneView {
    pub point: Vector3View,
    pub norm: Vector3View,
}

impl View for Plane {
    type V = PlaneView;

    open spec fn view(&self) -> PlaneView {
        PlaneView { point: self.point@, norm: self.norm@ }
    }
}

/// The shapes that a scene description can name.
#[derive(Debug)]
pub enum Shape {
    Sphere(Sphere),
    Plane(Plane),
}

/// A shape by the view of what it holds.
pub enum ShapeView {
    Sphere(SphereView),
    Plane(PlaneView),
}

impl ShapeView {
    /// Whether all that describes the shape are numerals.
    pub open spec fn is_well_formed(self) -> bool {
        match self {
            ShapeView::Sphere(s) => s.center.is_well_formed() && is_number(s.radius),
            ShapeView::Plane(p) => p.point.is_well_formed() && p.norm.is_well_formed(),
        }
    }
}

impl View for Shape {
    type V = ShapeView;

    open spec fn view(&self) -> ShapeView {
        match self {
            Shape::Sphere(s) => ShapeView::Sphere(s@),
            Shape::Plane(p) => ShapeView::Plane(p@),
        }
    }
}

/// How a surface scatters light. The number of a translucent surface is its
/// clearness: glass at 1, an opaque diffuse surface at 0.
#[derive(Debug)]
pub enum Material {
    Mirror,
    Translucent(Number),
}

/// A material, with its clearness as a character sequence.
pub enum MaterialView {
    Mirror,
    Translucent(Seq<char>),
}

impl MaterialView {
    /// Whether the clearness, where there is one, is a numeral.
    pub open spec fn is_well_formed(self) -> bool {
        match self {
            MaterialView::Mirror => true,
            MaterialView::Translucent(c) => is_number(c),
        }
    }
}

impl View for Material {
    type V = MaterialView;

    open spec fn view(&self) -> MaterialView {
        match self {
            Material::Mirror => MaterialView::Mirror,
            Material::Translucent(c) => MaterialView::Translucent(c@),
        }
    }
}

/// A colour by its three channels, each from 0 to 255.
#[derive(Debug, Clone, Copy, PartialEq, Eq, Structural)]
pub struct Color {
    pub red: u8,
    pub green: u8,
    pub blue: u8,
}

/// The colour that a name stands for.
pub open spec fn color_of(name: Seq<char>) -> Option<Color> {
    if name == "black"@ {
        Some(Color { red: 0, green: 0, blue: 0 })
    } else if name == "white"@ {
        Some(Color { red: 255, green: 255, blue: 255 })
    } else if name == "red"@ {
        Some(Color { red: 255, green: 0, blue: 0 })
    } else if name == "green"@ {
        Some(Color { red: 0, green: 255, blue: 0 })
    } else if name == "blue"@ {
        Some(Color { red: 0, green: 0, blue: 255 })
    } else if name == "yellow"@ {
        Some(Color { red: 255, green: 255, blue: 0 })
    } else {
        None
    }
}

impl Color {
    /// The colour of one of the six names; `None` for any other text.
    pub fn from_string(s: &str) -> (r: Option<Color>)
        ensures
            r == color_of(s@),
    {
        if same_text(s, "black") {
            Some(Color { red: 0, green: 0, blue: 0 })
        } else if same_text(s, "white") {
            Some(Color { red: 255, green: 255, blue: 255 })
        } else if same_text(s, "red") {
            Some(Color { red: 255, green: 0, blue: 0 })
        } else if same_text(s, "green") {
            Some(Color { red: 0, green: 255, blue: 0 })
        } else if same_text(s, "blue") {
            Some(Color { red: 0, green: 0, blue: 255 })
        } else if same_text(s, "yellow") {
            Some(Color { red: 255, green: 255, blue: 0 })
        } else {
            None
        }
    }
}

/// A shape with its base colour, the factor of its emitted light, and its
/// material.
#[derive(Debug)]
pub struct Object {
    pub shape: Shape,
    pub color: Color,
    pub lum: Number,
    pub material: Material,
}

/// An object by the views of its parts.
pub struct ObjectView {
    pub shape: ShapeView,
    pub color: Color,
    pub lum: Seq<char>,
    pub material: MaterialView,
}

impl ObjectView {
    /// Whether every number of the object is a numeral.
    pub open spec fn is_well_formed(self) -> bool {
        self.shape.is_well_formed() && is_number(self.lum) && self.material.is_well_formed()
    }
}

impl View for Object {
    type V = ObjectView;

    open spec fn view(&self) -> ObjectView {
        ObjectView { shape: self.shape@, color: self.color, lum: self.lum@, material: self.material@ }
    }
}

/// The views of a list of objects.
pub open spec fn object_views(objects: Seq<Object>) -> Seq<ObjectView> {
    Seq::new(objects.len(), |i: int| objects[i]@)
}

/// A whole scene description: the camera, the size of the image, the limits
/// of the sampling, the two scales for colour and light, and the objects.
#[derive(Debug)]
pub struct Config {
    pub objects: Vec<Object>,
    pub pov: Ray,
    pub width: u32,
    pub height: u32,
    pub fov: Number,
    pub max_depth: u16,
    pub num_tries: u16,
    pub max_variation: Number,
    pub col_scale: Number,
    pub lum_scale: Number,
}

/// A description by the views of its parts, the objects as a sequence.
pub struct ConfigView {
    pub objects: Seq<ObjectView>,
    pub pov: RayView,
    pub width: u32,
    pub height: u32,
    pub fov: Seq<char>,
    pub max_depth: u16,
    pub num_tries: u16,
    pub max_variation: Seq<char>,
    pub col_scale: Seq<char>,
    pub lum_scale: Seq<char>,
}

impl ConfigView {
    /// Whether every number of the description is a numeral.
    pub open spec fn is_well_formed(self) -> bool {
        &&& self.pov.pos.is_well_formed()
        &&& self.pov.dir.is_well_formed()
        &&& is_number(self.fov)
        &&& is_number(self.max_variation)
        &&& is_number(self.col_scale)
        &&& is_number(self.lum_scale)
        &&& forall|i: int| 0 <= i < self.objects.len() ==> (#[trigger] self.objects[i]).is_well_formed()
    }
}

impl View for Config {
    type V = ConfigView;

    open spec fn view(&self) -> ConfigView {
        ConfigView {
            objects: object_views(self.objects@),
            pov: self.pov@,
            width: self.width,
            height: self.height,
            fov: self.fov@,
            max_depth: self.max_depth,
            num_tries: self.num_tries,
            max_variation: self.max_variation@,
            col_scale: self.col_scale@,
            lum_scale: self.lum_scale@,
        }
    }
}

} // verus!
