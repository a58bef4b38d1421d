//! The icon of an application: where it comes from, at which size it is
//! loaded, and the cache of loaded images.
use vstd::hash_map::StringHashMap;
use vstd::prelude::*;
use vstd::string::*;

use crate::text::{self, push_signed_decimal};

verus! {

/// What an application says of its icon.
pub enum IconSource {
    /// The names of the icon in the icon theme, the preferred one first.
    Themed(Vec<String>),
    /// An image file, with its path where it has a local one.
    File(Option<String>),
    /// An icon of another kind.
    Other,
}

/// [`IconSource`] over mathematical sequences.
#[verifier::ext_equal]
pub enum IconModel {
    Themed(Seq<Seq<char>>),
    File(Option<Seq<char>>),
    Other,
}

impl View for IconSource {
    type V = IconModel;

    open spec fn view(&self) -> IconModel {
        match self {
            IconSource::Themed(names) => IconModel::Themed(names.deep_view()),
            IconSource::File(path) => IconModel::File(path.deep_view()),
            IconSource::Other => IconModel::Other,
        }
    }
}

/// The themed icon that is shown where an application has none.
pub const FALLBACK_ICON: &'static str = "application-x-executable";

/// The size of an icon before scaling.
pub const ICON_SIZE: i32 = 32;

/// The key of the image called `name`, loaded for the scale factor `scale`.
pub open spec fn scaled_key(name: Seq<char>, scale: int) -> Seq<char> {
    name + seq!['@'] + text::signed_decimal(scale)
}

/// What an icon is loaded by, where it can be: the first theme name, or the
/// path of the file.
pub open spec fn image_name(icon: IconModel) -> Option<Seq<char>> {
    match icon {
        IconModel::Themed(names) => if names.len() > 0 {
            Some(names[0])
        } else {
            None
        },
        IconModel::File(path) => path,
        IconModel::Other => None,
    }
}

/// The key under which the image of `icon` is cached.
pub open spec fn cache_key(icon: IconModel, scale: int) -> Option<Seq<char>> {
    match image_name(icon) {
        Some(name) => Some(scaled_key(name, scale)),
        None => None,
    }
}

/// The image to load.
pub enum ImageRequest<S = String> {
    /// The icon of this name from the icon theme, forced to this size.
    Themed { name: S, size: i32 },
    /// The image file at this path, fitted into a square of this size.
    File { path: S, size: i32 },
}

/// The request for the image of `icon` at the scale factor `scale`.
pub open spec fn request_of(icon: IconModel, scale: int) -> ImageRequest<Seq<char>> {
    let size = (ICON_SIZE * scale) as i32;
    match icon {
        IconModel::Themed(names) => ImageRequest::Themed { name: names[0], size },
        IconModel::File(path) => ImageRequest::File { path: path->0, size },
        IconModel::Other => arbitrary(),
    }
}

impl View for ImageRequest<String> {
    type V = ImageRequest<Seq<char>>;

    open spec fn view(&self) -> ImageRequest<Seq<char>> {
        match self {
            ImageRequest::Themed { name, size } => ImageRequest::Themed {
                name: name@,
                size: *size,
            },
            ImageRequest::File { path, size } => ImageRequest::File { path: path@, size: *size },
        }
    }
}

/// How the icon of an application is shown.
pub enum IconPlan<'a, T> {
    /// By the icon named [`FALLBACK_ICON`].
    Fallback,
    /// By an image that was loaded before.
    Cached(&'a T),
    /// By the requested image, which is kept under `key` once loaded.
    Load { request: ImageRequest, key: String },
}

/// The images that have been loaded, by their keys.
#[verifier::reject_recursive_types(T)]
pub struct IconCache<T> {
    images: StringHashMap<T>,
}

impl<T> View for IconCache<T> {
    type V = Map<Seq<char>, T>;

    closed spec fn view(&self) -> Map<Seq<char>, T> {
        self.images@
    }
}

impl<T> IconCache<T> {
    /// A cache without images.
    pub fn new() -> (r: IconCache<T>)
        ensures
            r@ == Map::<Seq<char>, T>::empty(),
    {
        IconCache { images: StringHashMap::new() }
    }

    /// Takes the outcome of loading the image of `key`: a loaded image is kept
    /// and returned to be shown; where nothing was loaded, the fallback is
    /// shown, and the cache stays as it is.
    pub fn finish_icon(&mut self, key: String, loaded: Option<T>) -> (r: Option<&T>)
        ensures
            match loaded {
                Some(image) => final(self)@ == old(self)@.insert(key@, image) && r == Some(&image),
                None => final(self)@ == old(self)@ && r is None,
            },
    {
        match loaded {
            Some(image) => {
                let name = key.clone();
                self.images.insert(key, image);
                self.images.get(name.as_str())
            },
            None => None,
        }
    }
}

/// The key under which the image of `icon` is cached.
pub fn icon_cache_key(icon: &IconSource, scale: i32) -> (r: Option<String>)
    ensures
        r.deep_view() == cache_key(icon@, scale as int),
{
    let name = match icon {
        IconSource::Themed(names) => {
            if names.len() == 0 {
                return None;
            }
            names[0].as_str()
        },
        IconSource::File(Some(path)) => path.as_str(),
        _ => {
            return None;
        },
    };
    let mut key = name.to_owned();
    proof {
        reveal_strlit("@");
    }
    assert("@"@ =~= seq!['@']);
    key.append("@");
    push_signed_decimal(&mut key, scale);
    Some(key)
}

/// The request for the image of `icon`, where it can be loaded.
pub fn image_request(icon: &IconSource, scale: i32) -> (r: Option<ImageRequest>)
    requires
        i32::MIN <= ICON_SIZE * scale <= i32::MAX,
    ensures
        match r {
            Some(request) => image_name(icon@) is Some && request@ == request_of(
                icon@,
                scale as int,
            ),
            None => image_name(icon@) is None,
        },
{
    let size: i32 = ICON_SIZE * scale;
    match icon {
        IconSource::Themed(names) => {
            if names.len() == 0 {
                None
            } else {
                Some(ImageRequest::Themed { name: names[0].clone(), size })
            }
        },
        IconSource::File(Some(path)) => Some(ImageRequest::File { path: path.clone(), size }),
        _ => None,
    }
}

/// Decides how an icon is shown at the scale factor `scale`.
pub fn create_icon<'a, T>(
    icon: &Option<IconSource>,
    scale: i32,
    cache: &'a IconCache<T>,
) -> (r: IconPlan<'a, T>)
    requires
        icon is Some ==> i32::MIN <= ICON_SIZE * scale <= i32::MAX,
    ensures
        match icon {
            None => r is Fallback,
            Some(source) => match cache_key(source@, scale as int) {
                None => r is Fallback,
                Some(key) => if cache@.contains_key(key) {
                    r == IconPlan::Cached(&cache@[key])
                } else {
                    r matches IconPlan::Load { request, key: k } && request@ == request_of(
                        source@,
                        scale as int,
                    ) && k@ == key
                },
            },
        },
{
    let source = match icon {
        None => {
            return IconPlan::Fallback;
        },
        Some(source) => source,
    };
    let key = match icon_cache_key(source, scale) {
        None => {
            return IconPlan::Fallback;
        },
        Some(key) => key,
    };
    if let Some(image) = cache.images.get(key.as_str()) {
        return IconPlan::Cached(image);
    }
    match image_request(source, scale) {
        None => IconPlan::Fallback,
        Some(request) => IconPlan::Load { request, key },
    }
}

/// The digits of a number, with its sign, hold no `@`.
proof fn lemma_number_has_no_mark(n: int)
    ensures
        forall|i: int|
            0 <= i < text::signed_decimal(n).len() ==> #[trigger] text::signed_decimal(n)[i] != '@',
{
    text::lemma_decimal_value(if n < 0 { (-n) as nat } else { n as nat });
}

/// Two numbers that are written the same are the same.
proof fn lemma_signed_decimal_injective(m: int, n: int)
    requires
        text::signed_decimal(m) == text::signed_decimal(n),
    ensures
        m == n,
{
    let a = text::signed_decimal(m);
    let b = text::signed_decimal(n);
    let p = if m < 0 { (-m) as nat } else { m as nat };
    let q = if n < 0 { (-n) as nat } else { n as nat };
    text::lemma_decimal_value(p);
    text::lemma_decimal_value(q);
    assert('0' <= text::decimal(p)[0] <= '9');
    assert('0' <= text::decimal(q)[0] <= '9');
    if m < 0 {
        assert(a[0] == '-');
        assert(text::decimal(p) =~= a.drop_first());
    }
    if n < 0 {
        assert(b[0] == '-');
        assert(text::decimal(q) =~= b.drop_first());
    }
}

/// Images of different names or scale factors never share a place in the
/// cache.
pub proof fn law_keys_do_not_collide(a: Seq<char>, s: int, b: Seq<char>, t: int)
    requires
        scaled_key(a, s) == scaled_key(b, t),
    ensures
        a == b,
        s == t,
{
    let x = text::signed_decimal(s);
    let y = text::signed_decimal(t);
    let key = scaled_key(a, s);
    lemma_number_has_no_mark(s);
    lemma_number_has_no_mark(t);
    assert(key.len() == a.len() + 1 + x.len());
    assert(key.len() == b.len() + 1 + y.len()) by {
        assert(key == scaled_key(b, t));
    }
    assert(key[a.len() as int] == '@');
    assert(scaled_key(b, t)[b.len() as int] == '@');
    if a.len() < b.len() {
        assert(key[b.len() as int] == x[b.len() - a.len() - 1]);
    }
    if b.len() < a.len() {
        assert(scaled_key(b, t)[a.len() as int] == y[a.len() - b.len() - 1]);
    }
    assert(a =~= key.take(a.len() as int));
    assert(b =~= scaled_key(b, t).take(b.len() as int));
    assert(x =~= key.skip(a.len() as int + 1));
    assert(y =~= scaled_key(b, t).skip(b.len() as int + 1));
    lemma_signed_decimal_injective(s, t);
}

/// An image that was loaded for an icon is what is shown for that icon at that
/// scale factor from then on, and changes nothing for an image of another name
/// or scale factor.
pub proof fn law_loaded_image_is_shown<T>(
    cache: Map<Seq<char>, T>,
    image: T,
    name: Seq<char>,
    scale: int,
    other_name: Seq<char>,
    other_scale: int,
)
    ensures
        ({
            let key = scaled_key(name, scale);
            let other = scaled_key(other_name, other_scale);
            let after = cache.insert(key, image);
            &&& after.contains_key(key) && after[key] == image
            &&& name != other_name || scale != other_scale ==> {
                &&& after.contains_key(other) == cache.contains_key(other)
                &&& cache.contains_key(other) ==> after[other] == cache[other]
            }
        }),
{
    if scaled_key(name, scale) == scaled_key(other_name, other_scale) {
        law_keys_do_not_collide(name, scale, other_name, other_scale);
    }
}

/// An icon can be loaded if and only if it has a theme name or a path. The
/// image is that of the first name, or of the file, at the size of an icon
/// times the scale factor, and is kept under that name and scale factor.
pub proof fn law_icon_is_loaded_by_its_first_name(
    names: Seq<Seq<char>>,
    path: Seq<char>,
    scale: int,
)
    requires
        i32::MIN <= 32 * scale <= i32::MAX,
    ensures
        cache_key(IconModel::Themed(Seq::empty()), scale) is None,
        cache_key(IconModel::File(None), scale) is None,
        cache_key(IconModel::Other, scale) is None,
        names.len() > 0 ==> {
            &&& cache_key(IconModel::Themed(names), scale) == Some(
                names[0] + seq!['@'] + text::signed_decimal(scale),
            )
            &&& request_of(IconModel::Themed(names), scale) == (ImageRequest::Themed {
                name: names[0],
                size: (32 * scale) as i32,
            })
        },
        cache_key(IconModel::File(Some(path)), scale) == Some(
            path + seq!['@'] + text::signed_decimal(scale),
        ),
        request_of(IconModel::File(Some(path)), scale) == (ImageRequest::File {
            path,
            size: (32 * scale) as i32,
        }),
{
}

/// The contracts speak of the icons and images that the window handles.
pub proof fn law_models_tell_icons(
    names: Vec<String>,
    path: Option<String>,
    name: String,
    size: i32,
)
    ensures
        IconSource::Themed(names)@ == IconModel::Themed(names.deep_view()),
        IconSource::File(path)@ == IconModel::File(path.deep_view()),
        IconSource::Other@ == IconModel::Other,
        (ImageRequest::Themed { name, size })@ == (ImageRequest::Themed { name: name@, size }),
        (ImageRequest::File { path: name, size })@ == (ImageRequest::File { path: name@, size }),
{
}

} // verus!
