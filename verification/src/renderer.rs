//! What the renderer keeps of its graphics objects, and the errors it reports.

use vstd::prelude::*;

verus! {

/// OpenGL's number for a vertex shader.
pub const VERTEX_SHADER: u32 = 0x8B31;

/// OpenGL's number for a fragment shader.
pub const FRAGMENT_SHADER: u32 = 0x8B30;

/// OpenGL's number for nearest-texel filtering.
pub const NEAREST: u32 = 0x2600;

/// OpenGL's number for linear filtering.
pub const LINEAR: u32 = 0x2601;

/// `String::push_str` appends the slice to the string, as std documents it.
pub assume_specification[ String::push_str ](s: &mut String, string: &str)
    ensures
        final(s)@ == old(s)@ + string@,
;

/// What can go wrong while graphics objects are made.
pub enum Error {
    NulError,
    UnableToCreateContext,
    UniformNotFound,
    CreateError,
    /// The compiler's log, and the kind of shader by OpenGL's number.
    ShaderCompileError(String, u32),
    /// The linker's log.
    ProgramLinkError(String),
    FrameBufferError,
}

/// The name of a kind of shader.
pub open spec fn shader_kind_name_spec(kind: u32) -> Seq<char> {
    if kind == VERTEX_SHADER {
        "Vertex shader"@
    } else if kind == FRAGMENT_SHADER {
        "Fragment shader"@
    } else {
        "Unknown"@
    }
}

/// The name of a kind of shader.
pub fn shader_kind_name(kind: u32) -> (r: &'static str)
    ensures
        r@ == shader_kind_name_spec(kind),
{
    if kind == VERTEX_SHADER {
        "Vertex shader"
    } else if kind == FRAGMENT_SHADER {
        "Fragment shader"
    } else {
        "Unknown"
    }
}

impl Error {
    /// The message for a reader.
    pub open spec fn message_spec(&self) -> Seq<char> {
        match self {
            Error::NulError => "Unable to convert to C String"@,
            Error::UniformNotFound => "Uniform not found"@,
            Error::CreateError => "Unable to create resource"@,
            Error::ShaderCompileError(msg, kind) => "Unable to compile "@ + shader_kind_name_spec(
                *kind,
            ) + ": "@ + msg@,
            Error::ProgramLinkError(msg) => "Link error: "@ + msg@,
            Error::UnableToCreateContext => "CreateError"@,
            Error::FrameBufferError => "Error while creating framebuffer"@,
        }
    }

    /// The short form for logs: the variant's name, followed by the message
    /// where the variant carries a log.
    pub open spec fn debug_spec(&self) -> Seq<char> {
        match self {
            Error::NulError => "NulError"@,
            Error::UniformNotFound => "UniformNotFound"@,
            Error::CreateError => "CreateError"@,
            Error::ShaderCompileError(_, _) => "ShaderCompileError: "@ + self.message_spec(),
            Error::ProgramLinkError(_) => "ProgramLinkError: "@ + self.message_spec(),
            Error::UnableToCreateContext => "CreateError"@,
            Error::FrameBufferError => "Error while creating framebuffer"@,
        }
    }

    /// The message for a reader.
    pub fn message(&self) -> (r: String)
        ensures
            r@ == self.message_spec(),
    {
        match self {
            Error::NulError => "Unable to convert to C String".to_owned(),
            Error::UniformNotFound => "Uniform not found".to_owned(),
            Error::CreateError => "Unable to create resource".to_owned(),
            Error::ShaderCompileError(msg, kind) => {
                let mut s = "Unable to compile ".to_owned();
                s.push_str(shader_kind_name(*kind));
                s.push_str(": ");
                s.push_str(msg.as_str());
                s
            },
            Error::ProgramLinkError(msg) => {
                let mut s = "Link error: ".to_owned();
                s.push_str(msg.as_str());
                s
            },
            Error::UnableToCreateContext => "CreateError".to_owned(),
            Error::FrameBufferError => "Error while creating framebuffer".to_owned(),
        }
    }

    /// The short form for logs.
    pub fn debug_text(&self) -> (r: String)
        ensures
            r@ == self.debug_spec(),
    {
        match self {
            Error::NulError => "NulError".to_owned(),
            Error::UniformNotFound => "UniformNotFound".to_owned(),
            Error::CreateError => "CreateError".to_owned(),
            Error::ShaderCompileError(_, _) => {
                let mut s = "ShaderCompileError: ".to_owned();
                let m = self.message();
                s.push_str(m.as_str());
                s
            },
            Error::ProgramLinkError(_) => {
                let mut s = "ProgramLinkError: ".to_owned();
                let m = self.message();
                s.push_str(m.as_str());
                s
            },
            Error::UnableToCreateContext => "CreateError".to_owned(),
            Error::FrameBufferError => "Error while creating framebuffer".to_owned(),
        }
    }
}

/// OpenGL names no object 0: a name of 0 means that none was made.
pub fn check_created(handle: u32) -> (r: Result<u32, Error>)
    ensures
        handle != 0 ==> r == Ok::<u32, Error>(handle),
        handle == 0 ==> r == Err::<u32, Error>(Error::CreateError),
{
    if handle == 0 {
        return Err(Error::CreateError);
    }
    Ok(handle)
}

/// OpenGL gives the location -1 for a uniform that the program does not have.
pub fn check_uniform_location(loc: i32) -> (r: Result<i32, Error>)
    ensures
        loc != -1 ==> r == Ok::<i32, Error>(loc),
        loc == -1 ==> r == Err::<i32, Error>(Error::UniformNotFound),
{
    if loc != -1 {
        Ok(loc)
    } else {
        Err(Error::UniformNotFound)
    }
}

/// OpenGL's number for texels of a single 8-bit channel.
pub const R8: u32 = 0x8229;

/// OpenGL's number for texels of red, green and blue.
pub const RGB: u32 = 0x1907;

/// OpenGL's number for texels of red, green, blue and alpha.
pub const RGBA: u32 = 0x1908;

/// What the pixels of a decoded image hold.
#[derive(Clone, Copy, Debug, PartialEq, Eq, Structural)]
pub enum ColorType {
    Grayscale,
    Rgb,
    Indexed,
    GrayscaleAlpha,
    Rgba,
}

/// OpenGL's number for the pixels of an image that a texture can take: gray,
/// colour, and colour with alpha.
pub fn pixel_format(color_type: ColorType) -> (r: Option<u32>)
    ensures
        r == (match color_type {
            ColorType::Grayscale => Some(R8),
            ColorType::Rgb => Some(RGB),
            ColorType::Rgba => Some(RGBA),
            _ => None,
        }),
{
    match color_type {
        ColorType::Grayscale => Some(R8),
        ColorType::Rgb => Some(RGB),
        ColorType::Rgba => Some(RGBA),
        _ => None,
    }
}

/// How a texture is sampled between texels.
pub enum Filter {
    Linear,
    Nearest,
}

impl Filter {
    /// OpenGL's number for the filter.
    pub fn get_gl_val(&self) -> (r: i32)
        ensures
            r == (match self {
                Filter::Linear => LINEAR as int,
                Filter::Nearest => NEAREST as int,
            }),
    {
        match self {
            Filter::Linear => LINEAR as i32,
            Filter::Nearest => NEAREST as i32,
        }
    }
}

/// A buffer object, known by the name that OpenGL gave it.
pub struct Buffer {
    handle: u32,
}

impl Buffer {
    pub closed spec fn name(&self) -> u32 {
        self.handle
    }

    /// The record of the buffer that OpenGL named `handle`.
    pub fn new(handle: u32) -> (r: Buffer)
        ensures
            r.name() == handle,
    {
        Buffer { handle }
    }

    pub fn handle(&self) -> (r: u32)
        ensures
            r == self.name(),
    {
        self.handle
    }
}

/// A vertex array object, known by the name that OpenGL gave it.
pub struct VertexArray {
    handle: u32,
}

impl VertexArray {
    pub closed spec fn name(&self) -> u32 {
        self.handle
    }

    /// The record of the vertex array that OpenGL named `handle`.
    pub fn new(handle: u32) -> (r: VertexArray)
        ensures
            r.name() == handle,
    {
        VertexArray { handle }
    }

    pub fn handle(&self) -> (r: u32)
        ensures
            r == self.name(),
    {
        self.handle
    }
}

/// A framebuffer with a color texture and a depth and stencil texture of
/// one size, each known by the name that OpenGL gave it.
pub struct RenderTexture {
    pub framebuffer: u32,
    pub color_texture: u32,
    pub depth_stencil_texture: u32,
    pub width: i32,
    pub height: i32,
}

impl RenderTexture {
    /// The record of a render target of `width` by `height` texels.
    pub fn new(
        framebuffer: u32,
        color_texture: u32,
        depth_stencil_texture: u32,
        width: i32,
        height: i32,
    ) -> (r: Result<RenderTexture, Error>)
        ensures
            r == Ok::<RenderTexture, Error>(
                RenderTexture { framebuffer, color_texture, depth_stencil_texture, width, height },
            ),
    {
        Ok(RenderTexture { framebuffer, color_texture, depth_stencil_texture, width, height })
    }
}

} // verus!
