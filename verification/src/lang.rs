//! The languages of the interface and the texts it shows in each.

use vstd::prelude::*;

verus! {

/// The language of the interface; English unless Turkish was chosen.
#[derive(Clone, Copy, Debug, PartialEq, Eq, Structural)]
pub enum Language {
    English,
    Turkish,
}

/// The language a fresh installation starts with.
pub open spec fn default_language() -> Language {
    Language::English
}

/// The texts of the interface that do not depend on the data.
#[derive(Clone, Copy, Debug, PartialEq, Eq, Structural)]
pub enum Msg {
    /// The status of a fresh window.
    Ready,
    /// The timer was started.
    Started,
    /// The timer was paused.
    Paused,
    /// The timer was resumed.
    Resumed,
    /// The timer was stopped and the form waits.
    Finished,
    /// The running session was dropped.
    Cancelled,
    /// The draft was dropped.
    NotSaved,
    /// A session was deleted.
    Deleted,
    /// Files were dropped with no session to take them.
    NeedTimer,
    /// A session was saved.
    Saved,
    /// Before the number of failed copies.
    SavedFailedBefore,
    /// After the number of failed copies.
    SavedFailedAfter,
    /// After the number of dropped files.
    DroppedAfter,
    /// Before the path of a written CSV file.
    CsvWritten,
    /// Before a CSV export error.
    CsvError,
    /// Before the path of a written JSON file.
    JsonWritten,
    /// Before a JSON export error.
    JsonError,
    /// Before a save error.
    SaveError,
    /// The label of a running timer.
    Running,
    /// The label of a paused timer.
    PausedLabel,
    /// A session without a topic in the list.
    NoTopic,
    /// Before the number of sessions.
    TotalBefore,
    /// After the number of sessions.
    SessionsAfter,
    /// Nothing was typed in the path box.
    NoPath,
    /// Before a path that was added.
    Added,
    /// Before a path with no file.
    NotFound,
    /// The unit of hours in a duration.
    HourUnit,
    /// The unit of minutes in a duration.
    MinuteUnit,
    /// The unit of seconds in a duration.
    SecondUnit,
    /// After the number of imported sessions.
    ImportedAfter,
    /// After the number of skipped sessions.
    SkippedAfter,
    /// Before an import error.
    ImportError,
    /// Before the number of attachments left out of a backup.
    LargeBefore,
    /// After the number of attachments left out of a backup.
    LargeAfter,
}

/// A text of the interface in a language.
pub open spec fn text(lang: Language, m: Msg) -> Seq<char> {
    match lang {
        Language::English => match m {
            Msg::Ready => "Ready."@,
            Msg::Started => "Timer started. Good luck!"@,
            Msg::Paused => "Timer paused."@,
            Msg::Resumed => "Resumed."@,
            Msg::Finished => "Session finished; fill in the details and save."@,
            Msg::Cancelled => "Session cancelled without saving."@,
            Msg::NotSaved => "Session not saved."@,
            Msg::Deleted => "Entry deleted."@,
            Msg::NeedTimer => "Start the timer first to attach files (attachments belong to a session)."@,
            Msg::Saved => "Session saved."@,
            Msg::SavedFailedBefore => "Session saved ("@,
            Msg::SavedFailedAfter => " attachment(s) could not be copied)."@,
            Msg::DroppedAfter => " attachment(s) added."@,
            Msg::CsvWritten => "CSV written: "@,
            Msg::CsvError => "CSV error: "@,
            Msg::JsonWritten => "JSON written: "@,
            Msg::JsonError => "JSON error: "@,
            Msg::SaveError => "Save error: "@,
            Msg::Running => "Running"@,
            Msg::PausedLabel => "Paused"@,
            Msg::NoTopic => "(no topic)"@,
            Msg::TotalBefore => "Total "@,
            Msg::SessionsAfter => " sessions • "@,
            Msg::NoPath => "Type a file path first."@,
            Msg::Added => "Added: "@,
            Msg::NotFound => "File not found: "@,
            Msg::HourUnit => "h"@,
            Msg::MinuteUnit => "min"@,
            Msg::SecondUnit => "s"@,
            Msg::ImportedAfter => " session(s) imported, "@,
            Msg::SkippedAfter => " skipped."@,
            Msg::ImportError => "Import error: "@,
            Msg::LargeBefore => " ("@,
            Msg::LargeAfter => " attachment(s) over 5 MB kept by path only)."@,
        },
        Language::Turkish => match m {
            Msg::Ready => "Hazır."@,
            Msg::Started => "Sayaç başladı. Kolay gelsin!"@,
            Msg::Paused => "Sayaç duraklatıldı."@,
            Msg::Resumed => "Devam ediliyor."@,
            Msg::Finished => "Oturum bitti; bilgileri doldurup kaydet."@,
            Msg::Cancelled => "Oturum kaydedilmeden iptal edildi."@,
            Msg::NotSaved => "Oturum kaydedilmedi."@,
            Msg::Deleted => "Kayıt silindi."@,
            Msg::NeedTimer => "Ek kaydetmek için önce sayacı başlat (ekler oturuma bağlanır)."@,
            Msg::Saved => "Oturum kaydedildi."@,
            Msg::SavedFailedBefore => "Oturum kaydedildi ("@,
            Msg::SavedFailedAfter => " ek kopyalanamadı)."@,
            Msg::DroppedAfter => " ek eklendi."@,
            Msg::CsvWritten => "CSV yazıldı: "@,
            Msg::CsvError => "CSV hatası: "@,
            Msg::JsonWritten => "JSON yazıldı: "@,
            Msg::JsonError => "JSON hatası: "@,
            Msg::SaveError => "Kaydetme hatası: "@,
            Msg::Running => "Çalışıyor"@,
            Msg::PausedLabel => "Duraklatıldı"@,
            Msg::NoTopic => "(konu yok)"@,
            Msg::TotalBefore => "Toplam "@,
            Msg::SessionsAfter => " oturum • "@,
            Msg::NoPath => "Önce bir dosya yolu yaz."@,
            Msg::Added => "Eklendi: "@,
            Msg::NotFound => "Dosya bulunamadı: "@,
            Msg::HourUnit => "sa"@,
            Msg::MinuteUnit => "dk"@,
            Msg::SecondUnit => "sn"@,
            Msg::ImportedAfter => " oturum içe aktarıldı, "@,
            Msg::SkippedAfter => " atlandı."@,
            Msg::ImportError => "İçe aktarma hatası: "@,
            Msg::LargeBefore => " ("@,
            Msg::LargeAfter => " ek 5 MB'tan büyük, yalnızca yoluyla kaydedildi)."@,
        },
    }
}

/// A text of the interface in a language.
pub fn say(lang: Language, m: Msg) -> (r: &'static str)
    ensures
        r@ == text(lang, m),
{
    match lang {
        Language::English => match m {
            Msg::Ready => "Ready.",
            Msg::Started => "Timer started. Good luck!",
            Msg::Paused => "Timer paused.",
            Msg::Resumed => "Resumed.",
            Msg::Finished => "Session finished; fill in the details and save.",
            Msg::Cancelled => "Session cancelled without saving.",
            Msg::NotSaved => "Session not saved.",
            Msg::Deleted => "Entry deleted.",
            Msg::NeedTimer => "Start the timer first to attach files (attachments belong to a session).",
            Msg::Saved => "Session saved.",
            Msg::SavedFailedBefore => "Session saved (",
            Msg::SavedFailedAfter => " attachment(s) could not be copied).",
            Msg::DroppedAfter => " attachment(s) added.",
            Msg::CsvWritten => "CSV written: ",
            Msg::CsvError => "CSV error: ",
            Msg::JsonWritten => "JSON written: ",
            Msg::JsonError => "JSON error: ",
            Msg::SaveError => "Save error: ",
            Msg::Running => "Running",
            Msg::PausedLabel => "Paused",
            Msg::NoTopic => "(no topic)",
            Msg::TotalBefore => "Total ",
            Msg::SessionsAfter => " sessions • ",
            Msg::NoPath => "Type a file path first.",
            Msg::Added => "Added: ",
            Msg::NotFound => "File not found: ",
            Msg::HourUnit => "h",
            Msg::MinuteUnit => "min",
            Msg::SecondUnit => "s",
            Msg::ImportedAfter => " session(s) imported, ",
            Msg::SkippedAfter => " skipped.",
            Msg::ImportError => "Import error: ",
            Msg::LargeBefore => " (",
            Msg::LargeAfter => " attachment(s) over 5 MB kept by path only).",
        },
        Language::Turkish => match m {
            Msg::Ready => "Hazır.",
            Msg::Started => "Sayaç başladı. Kolay gelsin!",
            Msg::Paused => "Sayaç duraklatıldı.",
            Msg::Resumed => "Devam ediliyor.",
            Msg::Finished => "Oturum bitti; bilgileri doldurup kaydet.",
            Msg::Cancelled => "Oturum kaydedilmeden iptal edildi.",
            Msg::NotSaved => "Oturum kaydedilmedi.",
            Msg::Deleted => "Kayıt silindi.",
            Msg::NeedTimer => "Ek kaydetmek için önce sayacı başlat (ekler oturuma bağlanır).",
            Msg::Saved => "Oturum kaydedildi.",
            Msg::SavedFailedBefore => "Oturum kaydedildi (",
            Msg::SavedFailedAfter => " ek kopyalanamadı).",
            Msg::DroppedAfter => " ek eklendi.",
            Msg::CsvWritten => "CSV yazıldı: ",
            Msg::CsvError => "CSV hatası: ",
            Msg::JsonWritten => "JSON yazıldı: ",
            Msg::JsonError => "JSON hatası: ",
            Msg::SaveError => "Kaydetme hatası: ",
            Msg::Running => "Çalışıyor",
            Msg::PausedLabel => "Duraklatıldı",
            Msg::NoTopic => "(konu yok)",
            Msg::TotalBefore => "Toplam ",
            Msg::SessionsAfter => " oturum • ",
            Msg::NoPath => "Önce bir dosya yolu yaz.",
            Msg::Added => "Eklendi: ",
            Msg::NotFound => "Dosya bulunamadı: ",
            Msg::HourUnit => "sa",
            Msg::MinuteUnit => "dk",
            Msg::SecondUnit => "sn",
            Msg::ImportedAfter => " oturum içe aktarıldı, ",
            Msg::SkippedAfter => " atlandı.",
            Msg::ImportError => "İçe aktarma hatası: ",
            Msg::LargeBefore => " (",
            Msg::LargeAfter => " ek 5 MB'tan büyük, yalnızca yoluyla kaydedildi).",
        },
    }
}

} // verus!
