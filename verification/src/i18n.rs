//! Interface language.
//!
//! English is the source language: every user-facing string is written in
//! English where it is used and looked up here when another language is
//! selected, so an untranslated string degrades to English rather than to a
//! blank label or a key.

use vstd::prelude::*;

use crate::text::{chars_of, replace, replace_chars, same_chars, string_of};

verus! {

#[derive(Clone, Copy, PartialEq, Eq, Structural, Debug)]
pub enum Lang {
    En,
    Vi,
}

impl Default for Lang {
    fn default() -> (l: Lang)
        ensures
            l == Lang::En,
    {
        Lang::En
    }
}

impl Lang {
    pub const ALL: [Lang; 2] = [Lang::En, Lang::Vi];

    /// Shown on the switcher. Each language names itself, as language pickers
    /// should.
    pub fn label(self) -> (r: &'static str)
        ensures
            r@ == match self {
                Lang::En => "English"@,
                Lang::Vi => "Tiếng Việt"@,
            },
    {
        match self {
            Lang::En => "English",
            Lang::Vi => "Tiếng Việt",
        }
    }

    pub fn code(self) -> (r: &'static str)
        ensures
            r@ == match self {
                Lang::En => "EN"@,
                Lang::Vi => "VI"@,
            },
    {
        match self {
            Lang::En => "EN",
            Lang::Vi => "VI",
        }
    }
}

/// English → Vietnamese, sorted by key.
pub const VI: [(&'static str, &'static str); 254] = [
    ("(background colour detected)", "(đã dò màu nền)"),
    ("(no background colour found)", "(không dò được màu nền)"),
    ("(no presets yet)", "(chưa có preset nào)"),
    ("(no region selected)", "(chưa chọn vùng nào)"),
    ("(no windows could be read)", "(không đọc được cửa sổ nào)"),
    ("(untitled window)", "(cửa sổ không tên)"),
    ("100%", "100%"),
    ("100% covers completely; lower is translucent, like a highlighter.", "100% che kín, thấp hơn thì trong suốt như bút dạ quang."),
    ("A shortcut for capturing", "Phím tắt để chụp"),
    ("API keys", "Khoá API"),
    ("About", "Giới thiệu"),
    ("Add a shadow", "Đổ bóng"),
    ("All screens together", "Gộp tất cả màn hình"),
    ("Amount", "Mức"),
    ("Angle", "Góc xoay"),
    ("Arrow", "Mũi tên"),
    ("Ask for permission", "Xin quyền"),
    ("Auto grows the canvas to fit the shot plus its padding.", "Auto mở rộng khung theo ảnh cộng phần đệm."),
    ("Back to 100%", "Về 100%"),
    ("Back to selection", "◀ Chọn lại vùng"),
    ("Back to the Select tool", "Về công cụ Chọn"),
    ("Back to the Select tool, or cancel", "Về công cụ Chọn, hoặc huỷ"),
    ("Background", "Nền"),
    ("Balance", "Balance"),
    ("Bind a shortcut to: shotr --capture", "Gán phím tắt: chạy `shotr --capture`"),
    ("Bind a system shortcut to: shotr --capture", "Gán phím tắt hệ thống cho: shotr --capture"),
    ("Blur", "Làm mờ"),
    ("Blur amount", "Độ mờ"),
    ("Bring forward", "Đưa lên trên"),
    ("Cancel", "Huỷ"),
    ("Cannot reach the clipboard", "Không truy cập được clipboard"),
    ("Capture a region", "Chụp một vùng"),
    ("Capture a region…", "✂ Chọn vùng chụp…"),
    ("Capture a whole screen", "🖥 Chụp nguyên màn hình"),
    ("Capture a window", "🗔 Chụp một cửa sổ"),
    ("Capture a window…", "Chụp một cửa sổ…"),
    ("Capture again", "📸 Chụp lại"),
    ("Capture every screen", "Chụp mọi màn hình"),
    ("Card", "Thẻ"),
    ("Card numbers", "Số thẻ"),
    ("Changes are saved as you make them", "Mọi thay đổi được lưu ngay"),
    ("Changes with the desktop, while shotr is running.", "Đổi theo hệ thống, ngay khi shotr đang chạy."),
    ("Change…", "Đổi…"),
    ("Choose a folder…", "Chọn thư mục…"),
    ("Choose…", "Chọn…"),
    ("Clear", "Xoá"),
    ("Clear all annotations", "Xoá hết chú thích"),
    ("Click a shape to select it · drag to move · Backspace deletes", "Bấm vào hình để chọn · kéo để di chuyển · Backspace để xoá"),
    ("Click a window in the list   ·   Space: back to region   ·   Esc: cancel", "Di chuột lên cửa sổ rồi bấm   ·   Space: chọn vùng   ·   Esc: huỷ"),
    ("Click a window in the list.", "Bấm một cửa sổ trong danh sách."),
    ("Click a word to hide or reveal it.", "Bấm vào từ để che hoặc bỏ che."),
    ("Click the image and type. Enter to finish, Esc to cancel. Click existing text to edit it.", "Bấm lên ảnh rồi gõ. Enter xong, Esc bỏ. Bấm lại chữ cũ để sửa."),
    ("Click to open. Right-click to pin.", "Bấm để mở. Bấm phải để ghim."),
    ("Click to pick a region", "Bấm để chọn vùng chụp"),
    ("Colour", "Màu"),
    ("Colours", "Màu"),
    ("Copied the shot as captured", "Đã copy ảnh gốc"),
    ("Copied the shot as captured, still redacted", "Đã copy ảnh gốc, phần che vẫn giữ"),
    ("Copied to the clipboard", "Đã copy vào clipboard"),
    ("Copy", "Copy"),
    ("Copy a region", "Copy một vùng"),
    ("Copy all", "Copy tất cả"),
    ("Copy and close on double-click", "Double-click ảnh = Copy và đóng"),
    ("Copy every screen", "Copy mọi màn hình"),
    ("Copy the finished image and close", "Copy ảnh đã xong rồi đóng"),
    ("Copy the shot as captured", "Copy ảnh gốc (không nền)"),
    ("Copy the text in the image", "📋 Copy chữ trong ảnh"),
    ("Corner", "Góc"),
    ("Could not open the editor", "Không mở được trình sửa"),
    ("Cover by hand", "Che thủ công"),
    ("Crop to selection", "Cắt vùng đã chọn"),
    ("Custom", "Tuỳ chỉnh"),
    ("Dark", "Tối"),
    ("Dashed", "Nét đứt"),
    ("Default format", "Định dạng mặc định"),
    ("Delete layer", "Xoá lớp"),
    ("Delete the preset that matches", "Xoá preset đang khớp"),
    ("Delete the selected shape  ⌫", "Xoá hình đang chọn  ⌫"),
    ("Double-click the image to copy and close", "Double-click ảnh = Copy và đóng"),
    ("Download the OCR model", "⬇ Tải model OCR"),
    ("Downloading the model…", "Đang tải model…"),
    ("Drag on the image to pick a region.", "Kéo chuột trên ảnh để khoanh vùng cần chụp."),
    ("Drag on the image to select text.", "Kéo chuột trên ảnh để chọn chữ."),
    ("Drag to select   ·   Enter: whole screen   ·   Esc: cancel", "Kéo để chọn vùng   ·   Enter: cả màn hình   ·   Esc: huỷ"),
    ("Drag to select   ·   Space: pick a window   ·   Enter: whole screen   ·   Esc: cancel", "Kéo để chọn vùng   ·   Space: chọn cửa sổ   ·   Enter: cả màn hình   ·   Esc: huỷ"),
    ("Drag to select a region. Space switches to picking a window.", "Kéo chuột để chọn vùng. Space để đổi sang chọn cửa sổ."),
    ("Duplicate", "Nhân bản"),
    ("Ellipse", "Elip"),
    ("Email addresses", "Địa chỉ email"),
    ("Enable watermark", "Bật đóng dấu"),
    ("Enter text", "Nội dung"),
    ("Export", "Xuất ảnh"),
    ("File name", "Tên file"),
    ("Filename", "Tên file"),
    ("Fill", "Tô đặc"),
    ("Fit", "Vừa khung"),
    ("Fit to the window", "Vừa khung"),
    ("Fit · {p}%", "Vừa khung · {p}%"),
    ("Follow the desktop", "Theo hệ thống"),
    ("Font size", "Cỡ chữ"),
    ("From clipboard", "📋 Từ clipboard"),
    ("General", "Chung"),
    ("Help", "Trợ giúp"),
    ("Hide {n} words", "Bỏ che {n} từ"),
    ("History", "Lịch sử"),
    ("IP addresses", "Địa chỉ IP"),
    ("If no dialog appeared, use the button beside this one.", "Nếu không thấy hộp thoại nào, dùng nút bên cạnh."),
    ("Image", "Ảnh"),
    ("In the editor", "Trong trình sửa"),
    ("Insert the copyright sign", "Chèn ký hiệu bản quyền"),
    ("Inset", "Inset"),
    ("JPEG has no alpha channel — a transparent background becomes white.", "JPEG không có kênh alpha — nền trong suốt sẽ thành trắng."),
    ("Keep this shot floating above other windows", "Giữ ảnh này nổi trên các cửa sổ khác"),
    ("Language", "Ngôn ngữ"),
    ("Layout", "Bố cục"),
    ("Leave the inset off rather than falling back to a plain colour.", "Bỏ luôn viền trong thay vì tô một màu mặc định."),
    ("Light", "Sáng"),
    ("Line", "Đường thẳng"),
    ("Logo image", "Ảnh logo"),
    ("Maximum compression (slower)", "Nén tối đa (chậm hơn)"),
    ("Monitor {n}", "Màn hình {n}"),
    ("More…", "Thêm…"),
    ("Name the preset first", "Đặt tên cho preset trước đã"),
    ("Needs a 12 MB model; everything runs on this machine.", "Cần tải model 12 MB, chạy hoàn toàn trên máy."),
    ("No image on the clipboard: {err}", "Clipboard không có ảnh: {err}"),
    ("No text found.", "Không thấy chữ nào."),
    ("No text to copy", "Không có chữ để copy"),
    ("No window to capture", "Không có cửa sổ nào để chụp"),
    ("Not set", "Chưa đặt"),
    ("OCR model downloaded", "Đã tải model OCR"),
    ("Off", "Tắt"),
    ("Only when a colour is found", "Chỉ khi dò được màu"),
    ("Opacity", "Độ đục"),
    ("Open System Settings", "Mở System Settings"),
    ("Open a shot", "Mở một ảnh"),
    ("Open file…", "📂 Mở file…"),
    ("Open head", "Đầu hở"),
    ("Open image folder", "📂 Mở thư mục ảnh"),
    ("Open image…", "📂 Mở ảnh…"),
    ("Open recent shots", "Mở ảnh chụp gần đây"),
    ("Opened a new capture window.", "Đã mở cửa sổ chụp mới."),
    ("Opened {path}", "Đã mở {path}"),
    ("Outlined", "Viền chữ"),
    ("Padding", "Padding"),
    ("Paint", "Tô màu"),
    ("Paint opacity", "Độ đậm"),
    ("Pan the image", "Kéo ảnh"),
    ("Pasted a {w}×{h} image from the clipboard", "Đã dán ảnh {w}×{h} từ clipboard"),
    ("Permission", "Quyền"),
    ("Phone number", "Số điện thoại"),
    ("Phone numbers", "Số điện thoại"),
    ("Phone numbers are off by default: that pattern is the loosest of the set and the most likely to cover something that is not a phone number.", "Số điện thoại tắt sẵn: mẫu này lỏng nhất trong nhóm và dễ che nhầm thứ không phải số điện thoại."),
    ("Pick a drawing tool", "Chọn công cụ vẽ"),
    ("Pick a recent shot, open a file, or paste from the clipboard.", "Chọn một ảnh gần đây, mở file, hoặc dán từ clipboard."),
    ("Pick a tool", "Chọn công cụ"),
    ("Pin", "Ghim"),
    ("Pin a region", "Ghim một vùng"),
    ("Pin a region…", "Ghim một vùng…"),
    ("Pin to screen", "Ghim ra màn hình"),
    ("Pinned to the screen.", "Đã ghim ra màn hình."),
    ("Pixelate", "Vỡ hạt"),
    ("Pixelate survives a re-encode.", "Vỡ hạt không phục hồi được khi mã hoá lại."),
    ("Plain text", "Chữ trơn"),
    ("Preferences…", "Tuỳ chọn…"),
    ("Preset name", "Tên preset"),
    ("Preset “{name}” deleted", "Đã xoá preset “{name}”"),
    ("Preset “{name}” saved", "Đã lưu preset “{name}”"),
    ("Press a combination…", "Bấm tổ hợp phím…"),
    ("Quality", "Chất lượng"),
    ("Quit", "Thoát"),
    ("Radius", "Bo góc"),
    ("Ratio / Size", "Tỉ lệ / Kích thước"),
    ("Read with ocrs — no Vietnamese diacritics.", "Đọc bằng ocrs — không có dấu tiếng Việt."),
    ("Read with tesseract ({langs})", "Đọc bằng tesseract ({langs})"),
    ("Reading text…", "Đang đọc chữ…"),
    ("Recent shots…", "Ảnh chụp gần đây…"),
    ("Rectangle", "Khung"),
    ("Redact by default", "Mặc định bật che"),
    ("Redact sensitive data ({found} found)", "Che thông tin nhạy cảm (tìm thấy {found})"),
    ("Redaction", "Che thông tin"),
    ("Redo", "Làm lại"),
    ("Region", "Vùng"),
    ("Releases", "Các bản phát hành"),
    ("Repeat diagonally across the image — the anti-reuse look", "Lặp lại chéo khắp ảnh — kiểu chống dùng lại ảnh"),
    ("Reset to defaults", "↺ Về mặc định"),
    ("Rim", "Viền"),
    ("Rim colour", "Màu viền"),
    ("Rounded plate", "Nền bo tròn"),
    ("Save", "Lưu"),
    ("Save As…", "Lưu thành…"),
    ("Save the finished image", "Lưu ảnh đã xong"),
    ("Saved: {path}", "Đã lưu: {path}"),
    ("Screen recording is allowed", "Đã được phép ghi màn hình"),
    ("Screenshots are taken by the system tool, which can only see the screen if shotr is allowed to.", "Ảnh do công cụ của hệ thống chụp, và nó chỉ thấy được màn hình nếu shotr được cấp quyền."),
    ("Select", "Chọn"),
    ("Select text", "Chọn chữ"),
    ("Selection: {w} × {h} px", "Vùng chọn: {w} × {h} px"),
    ("Send back", "Đưa xuống dưới"),
    ("Shadow", "Đổ bóng"),
    ("Shortcuts", "Phím tắt"),
    ("Sits under the shot, sharing its right edge.", "Nằm dưới ảnh, thẳng cạnh phải của ảnh."),
    ("Size", "Cỡ"),
    ("Social sizes", "Kích thước mạng xã hội"),
    ("Solid", "Màu đặc"),
    ("Solid colour", "Màu đơn"),
    ("Solid head", "Đầu đặc"),
    ("Step 1 — pick a region", "Bước 1 — Chọn vùng"),
    ("Stroke", "Nét"),
    ("Switch between region and window picking", "Đổi giữa chọn vùng và chọn cửa sổ"),
    ("Take a new shot", "📸 Chụp tấm mới"),
    ("Take the whole screen", "Chụp cả màn hình"),
    ("Taken from the window's own buffer, so one behind another still comes out whole.", "Ảnh lấy thẳng từ cửa sổ đó, nên cửa sổ bị che vẫn ra đủ."),
    ("Text", "Chữ"),
    ("Text colour", "Màu chữ"),
    ("Text recognition (OCR)", "Nhận diện chữ (OCR)"),
    ("The clipboard image is not valid", "Ảnh trong clipboard không hợp lệ"),
    ("The permission is remembered for shotr.app in /Applications. A binary run straight from a terminal borrows the terminal's permission instead.", "Quyền được ghi nhận cho shotr.app trong /Applications. Chạy binary trực tiếp từ terminal thì nó dùng quyền của terminal."),
    ("The shot is fitted inside the pinned canvas.", "Ảnh được đặt vừa trong khung đã ghim."),
    ("Theme", "Giao diện"),
    ("These are fixed for now.", "Hiện chưa đổi được."),
    ("This compositor will not list windows. Use Region instead.", "Compositor này không cho liệt kê cửa sổ. Dùng chế độ Vùng."),
    ("Tokens: {date}, {time}, {unix}", "Mã thay thế: {date}, {time}, {unix}"),
    ("Tools", "Công cụ"),
    ("Trim uniform edges so the subject sits centred", "Cắt bớt viền đồng màu để nội dung nằm giữa"),
    ("Try again", "Thử lại"),
    ("Type — Enter to finish, Esc to cancel", "Gõ chữ — Enter xong, Esc bỏ"),
    ("Undo", "Hoàn tác"),
    ("Undo, and Shift to redo", "Hoàn tác, thêm Shift để làm lại"),
    ("Use the default", "Dùng mặc định"),
    ("Use the whole screen", "Dùng cả màn hình"),
    ("Use {keys}", "Dùng {keys}"),
    ("Version", "Phiên bản"),
    ("Watermark", "Đóng dấu"),
    ("WebP is lossless here, so there is no quality slider.", "WebP ở đây chỉ lossless, nên không có thanh chất lượng."),
    ("Where shots are saved", "Nơi lưu ảnh"),
    ("Which kinds of text are covered when redaction is switched on for a shot.", "Những loại thông tin được che khi bật chế độ che cho một ảnh."),
    ("Window", "Cửa sổ"),
    ("Your presets", "Preset của anh"),
    ("Zoom", "Phóng"),
    ("Zoom in and out", "Phóng to, thu nhỏ"),
    ("` and 1–6 pick a tool · Esc returns to Select", "` và 1–6 chọn công cụ · Esc về Chọn"),
    ("auto", "tự động"),
    ("built from the shot", "dựng từ chính ảnh"),
    ("current wallpaper", "ảnh nền hiện tại"),
    ("macOS cannot report shortcuts held by other apps. If one press does two things, choose another combination.", "macOS không cho biết phím tắt do app khác giữ. Nếu một lần bấm làm hai việc, hãy chọn tổ hợp khác."),
    ("macOS is using {keys} for its own screenshot. Both will run.", "macOS đang dùng {keys} cho ảnh chụp của nó. Cả hai sẽ cùng chạy."),
    ("macOS reads this permission once when an app starts. After allowing it, quit shotr from the menu bar and start it again.", "macOS chỉ đọc quyền này một lần lúc app khởi động. Sau khi cấp, hãy thoát shotr từ menu bar rồi mở lại."),
    ("shotr cannot record the screen yet", "shotr chưa được phép ghi màn hình"),
    ("shotr — Preferences", "shotr — Tuỳ chọn"),
    ("then choose Screenshots", "rồi chọn Screenshots"),
    ("{chars} characters copied", "Đã copy {chars} ký tự"),
    ("{keys} now captures a region. Change it in Preferences.", "{keys} giờ dùng để chụp một vùng. Đổi trong Preferences."),
    ("{n} windows. Click one in the list.", "{n} cửa sổ. Bấm một cái trong danh sách giữa màn hình."),
    ("{n} words copied", "Đã copy {n} từ"),
];

/// The translation of `en` in `table`: the entry whose key it is, the first
/// one if there were several.
pub open spec fn lookup_in(table: Seq<(&str, &str)>, en: Seq<char>) -> Option<Seq<char>>
    decreases table.len(),
{
    if table.len() == 0 {
        None
    } else if table[0].0@ == en {
        Some(table[0].1@)
    } else {
        lookup_in(table.drop_first(), en)
    }
}

/// `en` in `lang`: itself in English, its translation in Vietnamese when the
/// table has one, and itself otherwise.
pub open spec fn t_spec(lang: Lang, en: Seq<char>) -> Seq<char> {
    match lang {
        Lang::En => en,
        Lang::Vi => match lookup_in(VI@, en) {
            Some(vi) => vi,
            None => en,
        },
    }
}

/// The Vietnamese for `en`, if the table has it.
pub fn lookup(en: &str) -> (r: Option<&'static str>)
    ensures
        match r {
            Some(vi) => lookup_in(VI@, en@) == Some(vi@),
            None => lookup_in(VI@, en@) is None,
        },
{
    let key = chars_of(en);
    let mut i: usize = 0;
    assert(VI@.skip(0) =~= VI@);
    while i < VI.len()
        invariant
            i <= VI@.len(),
            key@ == en@,
            lookup_in(VI@, en@) == lookup_in(VI@.skip(i as int), en@),
        decreases VI.len() - i,
    {
        let (k, v) = VI[i];
        let kc = chars_of(k);
        assert(VI@.skip(i as int)[0] == VI@[i as int]);
        if same_chars(kc.as_slice(), key.as_slice()) {
            return Some(v);
        }
        assert(VI@.skip(i as int).drop_first() =~= VI@.skip(i + 1));
        i = i + 1;
    }
    None
}

/// Translate an English source string into `lang`.
pub fn t(lang: Lang, en: &'static str) -> (r: &'static str)
    ensures
        r@ == t_spec(lang, en@),
{
    match lang {
        Lang::En => en,
        Lang::Vi => match lookup(en) {
            Some(vi) => vi,
            None => en,
        },
    }
}

/// `{name}`, the placeholder a name stands for.
pub open spec fn placeholder(name: Seq<char>) -> Seq<char> {
    seq!['{'] + name + seq!['}']
}

/// `text` with each placeholder, in the order given, replaced by its value.
pub open spec fn fill(text: Seq<char>, args: Seq<(Seq<char>, Seq<char>)>) -> Seq<char>
    decreases args.len(),
{
    if args.len() == 0 {
        text
    } else {
        replace(fill(text, args.drop_last()), placeholder(args.last().0), args.last().1)
    }
}

pub open spec fn pair_views(args: Seq<(&str, &str)>) -> Seq<(Seq<char>, Seq<char>)> {
    args.map_values(|p: (&str, &str)| (p.0@, p.1@))
}

/// Translate, then fill in `{name}` placeholders. Word order differs between
/// languages, so placeholders are named and substituted after translation.
pub fn tf(lang: Lang, en: &'static str, args: &[(&str, &str)]) -> (r: String)
    ensures
        r@ == fill(t_spec(lang, en@), pair_views(args@)),
{
    let ghost av = pair_views(args@);
    let mut out = chars_of(t(lang, en));
    let mut i: usize = 0;
    while i < args.len()
        invariant
            i <= args.len(),
            av == pair_views(args@),
            out@ == fill(t_spec(lang, en@), av.take(i as int)),
        decreases args.len() - i,
    {
        let (key, value) = args[i];
        let mut pat: Vec<char> = Vec::new();
        pat.push('{');
        let kc = chars_of(key);
        crate::text::push_all(&mut pat, kc.as_slice());
        pat.push('}');
        let vc = chars_of(value);
        out = replace_chars(out.as_slice(), pat.as_slice(), vc.as_slice());
        proof {
            assert(av.take(i + 1).drop_last() =~= av.take(i as int));
            assert(av.take(i + 1).last() == (key@, value@));
            assert(pat@ =~= placeholder(key@));
        }
        i = i + 1;
    }
    assert(av.take(args.len() as int) =~= av);
    string_of(out.as_slice())
}

/// English hands back exactly what it was given, and Vietnamese never
/// hands back a blank for a string it has no entry for: it falls back to
/// the English.
pub proof fn law_translation_falls_back(en: Seq<char>)
    ensures
        t_spec(Lang::En, en) == en,
        lookup_in(VI@, en) is None ==> t_spec(Lang::Vi, en) == en,
{
}

} // verus!
