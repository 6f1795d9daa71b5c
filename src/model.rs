//! The content records of a site, and the role checks on users.

use vstd::prelude::*;

use crate::collection::{Entity, Scoped, Stamped};

verus! {

// ---------------------------------------------------------------------------
// Users and roles
// ---------------------------------------------------------------------------

/// User account with role-based access control.
#[derive(Debug, Clone, PartialEq, Eq)]
pub struct User {
    pub id: String,
    pub email: String,
    pub name: String,
    pub roles: Vec<Role>,
    pub status: UserStatus,
    pub created_at: i64,
    pub last_login: Option<i64>,
}

/// A role granted to a user.
#[derive(Debug, Clone, PartialEq, Eq)]
pub enum Role {
    /// Full system access.
    Admin,
    /// Content editing (shows, songs, photos, videos).
    Content,
    /// Media uploads only.
    Media,
    /// View-only access to analytics.
    ReadOnly,
    /// Access scoped to one site.
    SiteEditor { site_id: String },
}

/// User account status.
#[derive(Debug, Clone, Copy, PartialEq, Eq, Structural)]
pub enum UserStatus {
    Active,
    Pending,
    Suspended,
    Deleted,
}

/// The capabilities that roles grant.
#[derive(Debug, Clone, Copy, PartialEq, Eq, Structural)]
pub enum Capability {
    Administer,
    EditContent,
    UploadMedia,
}

/// Whether `role` grants `cap`.
pub open spec fn role_grants(role: Role, cap: Capability) -> bool {
    match cap {
        Capability::Administer => role is Admin,
        Capability::EditContent => role is Admin || role is Content || role is SiteEditor,
        Capability::UploadMedia => role is Admin || role is Content || role is Media,
    }
}

/// Whether some role of `roles` grants `cap`.
pub open spec fn roles_grant(roles: Seq<Role>, cap: Capability) -> bool {
    exists|i: int| 0 <= i < roles.len() && role_grants(#[trigger] roles[i], cap)
}

fn grants(role: &Role, cap: Capability) -> (r: bool)
    ensures
        r == role_grants(*role, cap),
{
    match cap {
        Capability::Administer => matches!(role, Role::Admin),
        Capability::EditContent => matches!(role, Role::Admin | Role::Content | Role::SiteEditor { .. }),
        Capability::UploadMedia => matches!(role, Role::Admin | Role::Content | Role::Media),
    }
}

fn any_grants(roles: &Vec<Role>, cap: Capability) -> (r: bool)
    ensures
        r == roles_grant(roles@, cap),
{
    let mut i: usize = 0;
    while i < roles.len()
        invariant
            i <= roles@.len(),
            forall|j: int| 0 <= j < i ==> !role_grants(#[trigger] roles@[j], cap),
        decreases roles@.len() - i,
    {
        if grants(&roles[i], cap) {
            return true;
        }
        i = i + 1;
    }
    false
}

impl User {
    /// Whether the user holds the admin role.
    pub fn is_admin(&self) -> (r: bool)
        ensures
            r == roles_grant(self.roles@, Capability::Administer),
    {
        any_grants(&self.roles, Capability::Administer)
    }

    /// Whether the user may edit content: an admin, content or site-editor role.
    pub fn can_edit_content(&self) -> (r: bool)
        ensures
            r == roles_grant(self.roles@, Capability::EditContent),
    {
        any_grants(&self.roles, Capability::EditContent)
    }

    /// Whether the user may upload media: an admin, content or media role.
    pub fn can_upload_media(&self) -> (r: bool)
        ensures
            r == roles_grant(self.roles@, Capability::UploadMedia),
    {
        any_grants(&self.roles, Capability::UploadMedia)
    }
}

// ---------------------------------------------------------------------------
// Shows (events)
// ---------------------------------------------------------------------------

/// Live show or performance event.
#[derive(Debug, Clone, PartialEq, Eq)]
pub struct Show {
    pub id: String,
    pub site_id: String,
    pub title: String,
    pub venue: String,
    pub address: Option<String>,
    /// Event date (Unix timestamp).
    pub date: i64,
    /// Start time (HH:MM).
    pub start_time: String,
    pub ticket_url: Option<String>,
    pub description: Option<String>,
    pub status: ShowStatus,
    pub created_by: String,
    pub created_at: i64,
    pub updated_at: i64,
}

/// Show status.
#[derive(Debug, Clone, Copy, PartialEq, Eq, Structural)]
pub enum ShowStatus {
    Upcoming,
    Live,
    Completed,
    Cancelled,
}

// ---------------------------------------------------------------------------
// Songs (tracks)
// ---------------------------------------------------------------------------

/// Song in the band's repertoire.
#[derive(Debug, Clone, PartialEq, Eq)]
pub struct Song {
    pub id: String,
    pub site_id: String,
    pub title: String,
    /// Original artist (for covers).
    pub artist: Option<String>,
    pub genres: Vec<String>,
    pub duration_seconds: Option<i32>,
    pub is_original: bool,
    pub musical_key: Option<String>,
    pub notes: Option<String>,
    pub created_at: i64,
}

/// Ordered list of songs for a performance.
#[derive(Debug, Clone, PartialEq, Eq)]
pub struct Setlist {
    pub id: String,
    pub show_id: Option<String>,
    pub song_ids: Vec<String>,
    pub name: Option<String>,
    pub notes: Option<String>,
}

// ---------------------------------------------------------------------------
// Photos, galleries and videos
// ---------------------------------------------------------------------------

/// Photo or image asset.
#[derive(Debug, Clone, PartialEq, Eq)]
pub struct Photo {
    pub id: String,
    pub site_id: String,
    pub filename: String,
    pub url_full: String,
    pub url_thumb: String,
    pub size_bytes: i64,
    pub dimensions: ImageDimensions,
    pub alt_text: Option<String>,
    pub caption: Option<String>,
    pub tags: Vec<String>,
    pub uploaded_at: i64,
    pub uploaded_by: String,
}

/// Image dimensions in pixels.
#[derive(Debug, Clone, Copy, PartialEq, Eq, Structural)]
pub struct ImageDimensions {
    pub width: i32,
    pub height: i32,
}

/// Photo gallery or album.
#[derive(Debug, Clone, PartialEq, Eq)]
pub struct Gallery {
    pub id: String,
    pub site_id: String,
    pub title: String,
    pub description: Option<String>,
    pub photo_ids: Vec<String>,
    pub cover_photo_id: Option<String>,
    pub visibility: GalleryVisibility,
    pub created_at: i64,
}

/// Visibility of a gallery or video.
#[derive(Debug, Clone, PartialEq, Eq)]
pub enum GalleryVisibility {
    Public,
    Password { password: String },
    MembersOnly,
    Hidden,
}

/// Video asset.
#[derive(Debug, Clone, PartialEq, Eq)]
pub struct Video {
    pub id: String,
    pub site_id: String,
    pub title: String,
    pub description: Option<String>,
    pub source: VideoSource,
    pub thumbnail_url: Option<String>,
    pub duration_seconds: Option<i32>,
    pub visibility: GalleryVisibility,
    pub view_count: i64,
    pub published_at: i64,
}

/// Where a video is hosted.
#[derive(Debug, Clone, PartialEq, Eq)]
pub enum VideoSource {
    YouTube { video_id: String },
    Vimeo { video_id: String },
    Direct { url: String },
    External { embed_code: String },
}

// ---------------------------------------------------------------------------
// Blog posts (articles)
// ---------------------------------------------------------------------------

/// Blog post or news article.
#[derive(Debug, Clone, PartialEq, Eq)]
pub struct BlogPost {
    pub id: String,
    pub site_id: String,
    pub title: String,
    pub slug: String,
    pub content: String,
    pub excerpt: Option<String>,
    pub cover_image_id: Option<String>,
    pub author_id: String,
    pub status: PostStatus,
    pub published_at: Option<i64>,
    pub created_at: i64,
    pub updated_at: i64,
}

/// Blog post status.
#[derive(Debug, Clone, Copy, PartialEq, Eq, Structural)]
pub enum PostStatus {
    Draft,
    Scheduled,
    Published,
    Archived,
}

// ---------------------------------------------------------------------------
// Sites
// ---------------------------------------------------------------------------

/// Website / deployment target.
#[derive(Debug, Clone, PartialEq, Eq)]
pub struct Site {
    pub id: String,
    /// Identifier used in URLs.
    pub slug: String,
    pub name: String,
    pub domain: Option<String>,
    pub description: Option<String>,
    pub owner_id: String,
    pub member_ids: Vec<String>,
    pub theme: String,
    /// Site configuration, as JSON text.
    pub config: String,
    pub status: SiteStatus,
    pub created_at: i64,
}

/// Site deployment status.
#[derive(Debug, Clone, Copy, PartialEq, Eq, Structural)]
pub enum SiteStatus {
    Active,
    Building,
    Failed,
    Suspended,
    Archived,
}

/// Host under which every site is reachable by its slug.
pub const DEFAULT_DOMAIN_SUFFIX: &'static str = ".webnexus.dev";

impl Site {
    /// The default domain of this site: its slug under the shared host.
    pub fn default_domain(&self) -> (r: String)
        ensures
            r@ == self.slug@ + DEFAULT_DOMAIN_SUFFIX@,
    {
        self.slug.clone().concat(DEFAULT_DOMAIN_SUFFIX)
    }
}

// ---------------------------------------------------------------------------
// Band members, contact and API payloads
// ---------------------------------------------------------------------------

/// Band member profile.
#[derive(Debug, Clone, PartialEq, Eq)]
pub struct BandMember {
    pub id: String,
    pub site_id: String,
    pub name: String,
    /// Instrument or role.
    pub role: String,
    pub bio: Option<String>,
    pub photo_id: Option<String>,
    pub email: Option<String>,
    pub display_order: i32,
}

/// Contact form submission.
#[derive(Debug, Clone, PartialEq, Eq)]
pub struct ContactSubmission {
    pub id: String,
    pub site_id: String,
    pub name: String,
    pub email: String,
    pub subject: Option<String>,
    pub message: String,
    pub submitted_at: i64,
    pub is_read: bool,
}

/// One page of a listing.
#[derive(Debug, Clone, PartialEq, Eq)]
pub struct PaginatedResponse<T> {
    pub data: Vec<T>,
    /// Current page number (1-indexed).
    pub page: i32,
    pub per_page: i32,
    pub total: i64,
    pub total_pages: i32,
    pub has_next: bool,
    pub has_prev: bool,
}

/// Authentication request.
#[derive(Debug, Clone, PartialEq, Eq)]
pub struct LoginRequest {
    pub email: String,
    pub password: String,
}

/// Authentication response.
#[derive(Debug, Clone, PartialEq, Eq)]
pub struct LoginResponse {
    pub token: String,
    pub user: User,
    pub expires_at: i64,
}

/// TypeScript declarations of the user types, for client bindings.
pub const TYPESCRIPT_DECLARATIONS: &'static str = "
// TypeScript types of the Rust contracts

export interface User {
  id: string;
  email: string;
  name: string;
  roles: Role[];
  status: UserStatus;
  createdAt: number;
  lastLogin?: number;
}

export type Role =
  | { type: \"Admin\" }
  | { type: \"Content\" }
  | { type: \"Media\" }
  | { type: \"ReadOnly\" }
  | { type: \"SiteEditor\", siteId: string };

export type UserStatus = \"Active\" | \"Pending\" | \"Suspended\" | \"Deleted\";

// ... (more types would be generated)
";

/// The TypeScript declarations of the user types.
pub fn export_types() -> (r: String)
    ensures
        r@ == TYPESCRIPT_DECLARATIONS@,
{
    TYPESCRIPT_DECLARATIONS.to_string()
}

// ---------------------------------------------------------------------------
// How each kind is keyed, scoped and stamped in a replica
// ---------------------------------------------------------------------------

impl Entity for Show {
    open spec fn key(&self) -> Seq<char> {
        self.id@
    }

    fn id_str(&self) -> (r: &String) {
        &self.id
    }
}

impl Scoped for Show {
    open spec fn scope(&self) -> Seq<char> {
        self.site_id@
    }

    fn scope_str(&self) -> (r: &String) {
        &self.site_id
    }
}

/// Shows are ordered by their update time.
impl Stamped for Show {
    open spec fn stamp(&self) -> int {
        self.updated_at as int
    }

    fn stamp_value(&self) -> (r: i64) {
        self.updated_at
    }
}

impl Entity for BlogPost {
    open spec fn key(&self) -> Seq<char> {
        self.id@
    }

    fn id_str(&self) -> (r: &String) {
        &self.id
    }
}

impl Scoped for BlogPost {
    open spec fn scope(&self) -> Seq<char> {
        self.site_id@
    }

    fn scope_str(&self) -> (r: &String) {
        &self.site_id
    }
}

/// Posts are ordered by their update time.
impl Stamped for BlogPost {
    open spec fn stamp(&self) -> int {
        self.updated_at as int
    }

    fn stamp_value(&self) -> (r: i64) {
        self.updated_at
    }
}

impl Entity for Site {
    open spec fn key(&self) -> Seq<char> {
        self.id@
    }

    fn id_str(&self) -> (r: &String) {
        &self.id
    }
}

/// Sites carry no update time and are ordered by their creation time.
impl Stamped for Site {
    open spec fn stamp(&self) -> int {
        self.created_at as int
    }

    fn stamp_value(&self) -> (r: i64) {
        self.created_at
    }
}

impl Entity for Song {
    open spec fn key(&self) -> Seq<char> {
        self.id@
    }

    fn id_str(&self) -> (r: &String) {
        &self.id
    }
}

impl Scoped for Song {
    open spec fn scope(&self) -> Seq<char> {
        self.site_id@
    }

    fn scope_str(&self) -> (r: &String) {
        &self.site_id
    }
}

impl Entity for Photo {
    open spec fn key(&self) -> Seq<char> {
        self.id@
    }

    fn id_str(&self) -> (r: &String) {
        &self.id
    }
}

impl Scoped for Photo {
    open spec fn scope(&self) -> Seq<char> {
        self.site_id@
    }

    fn scope_str(&self) -> (r: &String) {
        &self.site_id
    }
}

impl Entity for Video {
    open spec fn key(&self) -> Seq<char> {
        self.id@
    }

    fn id_str(&self) -> (r: &String) {
        &self.id
    }
}

impl Entity for User {
    open spec fn key(&self) -> Seq<char> {
        self.id@
    }

    fn id_str(&self) -> (r: &String) {
        &self.id
    }
}

} // verus!
