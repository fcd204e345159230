//! What the bibliographic lookup service answers, and how an answer maps
//! onto the fields of a book.

use vstd::prelude::*;
use crate::book::{Book, BookView, Identifier, copy_opt, opt_text};

verus! {

/// The cover images that the service offers for a volume.
#[derive(Debug, Clone)]
pub struct ImageLinks {
    pub small_thumbnail: Option<String>,
    pub thumbnail: Option<String>,
}

/// Where and how a volume is sold.
#[derive(Debug, Clone)]
pub struct SaleInfo {
    pub country: Option<String>,
    pub saleability: Option<String>,
    pub is_ebook: Option<bool>,
}

/// Whether a format of a volume can be had.
#[derive(Debug, Clone)]
pub struct Availability {
    pub is_available: Option<bool>,
}

/// How a volume can be read online.
#[derive(Debug, Clone)]
pub struct AccessInfo {
    pub country: Option<String>,
    pub viewability: Option<String>,
    pub embeddable: Option<bool>,
    pub public_domain: Option<bool>,
    pub text_to_speech_permission: Option<String>,
    pub epub: Option<Availability>,
    pub pdf: Option<Availability>,
    pub web_reader_link: Option<String>,
    pub access_view_status: Option<String>,
    pub quote_sharing_allowed: Option<bool>,
}

/// The bibliographic description of a volume.
#[derive(Debug, Clone)]
pub struct VolumeInfo {
    pub title: String,
    pub authors: Option<Vec<String>>,
    pub publisher: Option<String>,
    pub published_date: Option<String>,
    pub description: Option<String>,
    pub page_count: Option<i64>,
    pub print_type: Option<String>,
    pub categories: Option<Vec<String>>,
    pub maturity_rating: Option<String>,
    pub language: Option<String>,
    pub preview_link: Option<String>,
    pub info_link: Option<String>,
    pub canonical_volume_link: Option<String>,
    pub image_links: Option<ImageLinks>,
    pub industry_identifiers: Option<Vec<Identifier>>,
}

/// One volume of an answer.
#[derive(Debug, Clone)]
pub struct Volume {
    pub id: String,
    pub volume_info: VolumeInfo,
    pub sale_info: Option<SaleInfo>,
    pub access_info: Option<AccessInfo>,
}

/// An answer of the service: the volumes that match, best first.
#[derive(Debug, Clone)]
pub struct VolumesResponse {
    pub items: Option<Vec<Volume>>,
}

/// A yes-or-no answer as the catalog stores it: 1 for yes, 0 for no or no answer.
pub open spec fn flag(b: Option<bool>) -> i64 {
    if b == Some(true) {
        1
    } else {
        0
    }
}

/// Whether a format is stated to be available.
pub open spec fn available(a: Option<Availability>) -> Option<bool> {
    match a {
        Some(x) => x.is_available,
        None => None,
    }
}

/// The small cover image of a volume, if it names one.
pub open spec fn small_cover(v: Volume) -> Option<Seq<char>> {
    match v.volume_info.image_links {
        Some(l) => opt_text(l.small_thumbnail),
        None => None,
    }
}

/// The cover image of a volume, if it names one.
pub open spec fn cover(v: Volume) -> Option<Seq<char>> {
    match v.volume_info.image_links {
        Some(l) => opt_text(l.thumbnail),
        None => None,
    }
}

/// The country of a volume: that of its sale, else that of its access.
pub open spec fn country_of(v: Volume) -> Option<Seq<char>> {
    let sale = match v.sale_info {
        Some(s) => opt_text(s.country),
        None => None,
    };
    if sale is Some {
        sale
    } else {
        match v.access_info {
            Some(a) => opt_text(a.country),
            None => None,
        }
    }
}

/// The book that a looked-up volume describes: every descriptive field
/// taken from the volume, no series number, no groups, no custom fields.
pub open spec fn imported_book(v: Volume) -> BookView {
    BookView {
        volume_id: v.id@,
        title: v.volume_info.title@,
        number: None,
        publisher: opt_text(v.volume_info.publisher),
        published_date: opt_text(v.volume_info.published_date),
        description: opt_text(v.volume_info.description),
        page_count: v.volume_info.page_count,
        print_type: opt_text(v.volume_info.print_type),
        maturity_rating: opt_text(v.volume_info.maturity_rating),
        language: opt_text(v.volume_info.language),
        preview_link: opt_text(v.volume_info.preview_link),
        info_link: opt_text(v.volume_info.info_link),
        canonical_link: opt_text(v.volume_info.canonical_volume_link),
        small_thumbnail: small_cover(v),
        thumbnail: cover(v),
        country: country_of(v),
        saleability: match v.sale_info {
            Some(s) => opt_text(s.saleability),
            None => None,
        },
        is_ebook: match v.sale_info {
            Some(s) => Some(flag(s.is_ebook)),
            None => None,
        },
        viewability: match v.access_info {
            Some(a) => opt_text(a.viewability),
            None => None,
        },
        embeddable: match v.access_info {
            Some(a) => Some(flag(a.embeddable)),
            None => None,
        },
        public_domain: match v.access_info {
            Some(a) => Some(flag(a.public_domain)),
            None => None,
        },
        text_to_speech_permission: match v.access_info {
            Some(a) => opt_text(a.text_to_speech_permission),
            None => None,
        },
        epub_available: match v.access_info {
            Some(a) => Some(flag(available(a.epub))),
            None => None,
        },
        pdf_available: match v.access_info {
            Some(a) => Some(flag(available(a.pdf))),
            None => None,
        },
        web_reader_link: match v.access_info {
            Some(a) => opt_text(a.web_reader_link),
            None => None,
        },
        access_view_status: match v.access_info {
            Some(a) => opt_text(a.access_view_status),
            None => None,
        },
        quote_sharing_allowed: match v.access_info {
            Some(a) => Some(flag(a.quote_sharing_allowed)),
            None => None,
        },
        groups: Seq::empty(),
        custom_fields: Seq::empty(),
    }
}

/// Stores a yes-or-no answer as 1 or 0.
fn as_i64(b: Option<bool>) -> (r: i64)
    ensures
        r == flag(b),
{
    match b {
        Some(true) => 1,
        _ => 0,
    }
}

/// Reads whether a format is stated to be available.
fn stated(a: &Option<Availability>) -> (r: Option<bool>)
    ensures
        r == available(*a),
{
    match a {
        Some(x) => x.is_available,
        None => None,
    }
}

/// Maps a looked-up volume onto the fields of a book.
pub fn book_from_volume(v: &Volume) -> (r: Book)
    ensures
        r@ == imported_book(*v),
{
    let vi = &v.volume_info;
    let (small_thumbnail, thumbnail) = match &vi.image_links {
        Some(l) => (copy_opt(&l.small_thumbnail), copy_opt(&l.thumbnail)),
        None => (None, None),
    };
    let (sale_country, saleability, is_ebook) = match &v.sale_info {
        Some(s) => (copy_opt(&s.country), copy_opt(&s.saleability), Some(as_i64(s.is_ebook))),
        None => (None, None, None),
    };
    let country = match sale_country {
        Some(c) => Some(c),
        None => match &v.access_info {
            Some(a) => copy_opt(&a.country),
            None => None,
        },
    };
    let mut book = Book {
        volume_id: v.id.clone(),
        title: vi.title.clone(),
        number: None,
        publisher: copy_opt(&vi.publisher),
        published_date: copy_opt(&vi.published_date),
        description: copy_opt(&vi.description),
        page_count: vi.page_count,
        print_type: copy_opt(&vi.print_type),
        maturity_rating: copy_opt(&vi.maturity_rating),
        language: copy_opt(&vi.language),
        preview_link: copy_opt(&vi.preview_link),
        info_link: copy_opt(&vi.info_link),
        canonical_link: copy_opt(&vi.canonical_volume_link),
        small_thumbnail,
        thumbnail,
        country,
        saleability,
        is_ebook,
        viewability: None,
        embeddable: None,
        public_domain: None,
        text_to_speech_permission: None,
        epub_available: None,
        pdf_available: None,
        web_reader_link: None,
        access_view_status: None,
        quote_sharing_allowed: None,
        groups: Vec::new(),
        custom_fields: Vec::new(),
    };
    match &v.access_info {
        Some(a) => {
            book.viewability = copy_opt(&a.viewability);
            book.embeddable = Some(as_i64(a.embeddable));
            book.public_domain = Some(as_i64(a.public_domain));
            book.text_to_speech_permission = copy_opt(&a.text_to_speech_permission);
            book.epub_available = Some(as_i64(stated(&a.epub)));
            book.pdf_available = Some(as_i64(stated(&a.pdf)));
            book.web_reader_link = copy_opt(&a.web_reader_link);
            book.access_view_status = copy_opt(&a.access_view_status);
            book.quote_sharing_allowed = Some(as_i64(a.quote_sharing_allowed));
        },
        None => {},
    }
    assert(book@.groups =~= Seq::<Seq<char>>::empty());
    assert(book@.custom_fields =~= Seq::<(Seq<char>, Seq<char>)>::empty());
    book
}

} // verus!
